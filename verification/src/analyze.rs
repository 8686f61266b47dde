use vstd::prelude::*;
use vstd::utf8::encode_utf8;
use vstd::string::StringSliceAdditionalSpecFns;
use crate::value::{JsonValue, JsonModel, model_of, item_models, entry_models, lemma_item_models,
    lemma_entry_models};
use crate::jsontext::{parse_json, spec_parse};
use crate::strutil::concat_str;

verus! {

/// Hard bound on nesting: a document nested deeper than this is refused
/// instead of being walked, so the recursive walks cannot exhaust the stack.
pub const MAX_NESTING_DEPTH: usize = 128;

pub open spec fn tag_object() -> Seq<char> { "object"@ }

pub open spec fn tag_array() -> Seq<char> { "array"@ }

pub open spec fn tag_string() -> Seq<char> { "string"@ }

pub open spec fn tag_number() -> Seq<char> { "number"@ }

pub open spec fn tag_boolean() -> Seq<char> { "boolean"@ }

pub open spec fn tag_null() -> Seq<char> { "null"@ }

/// Maximum nesting level reached in a document: the root sits at level zero
/// and each descent into an object member or array element adds one.
pub open spec fn depth_of(m: JsonModel) -> nat
    decreases m,
{
    match m {
        JsonModel::Array(items) => if items.len() == 0 { 0 } else {
            (1 + max_depth_items(items)) as nat
        },
        JsonModel::Object(entries) => if entries.len() == 0 { 0 } else {
            (1 + max_depth_entries(entries)) as nat
        },
        _ => 0,
    }
}

pub open spec fn max_depth_items(s: Seq<JsonModel>) -> nat
    decreases s,
{
    if s.len() == 0 {
        0
    } else {
        let rest = max_depth_items(s.subrange(0, s.len() - 1));
        let last = depth_of(s[s.len() - 1]);
        if last > rest { last } else { rest }
    }
}

pub open spec fn max_depth_entries(s: Seq<(Seq<char>, JsonModel)>) -> nat
    decreases s,
{
    if s.len() == 0 {
        0
    } else {
        let rest = max_depth_entries(s.subrange(0, s.len() - 1));
        let last = depth_of(s[s.len() - 1].1);
        if last > rest { last } else { rest }
    }
}

/// Object keys in a document, counted over every object anywhere in the
/// tree; array elements contribute nothing of their own.
pub open spec fn key_count_of(m: JsonModel) -> nat
    decreases m,
{
    match m {
        JsonModel::Array(items) => kc_items(items),
        JsonModel::Object(entries) => entries.len() + kc_entries(entries),
        _ => 0,
    }
}

pub open spec fn kc_items(s: Seq<JsonModel>) -> nat
    decreases s,
{
    if s.len() == 0 {
        0
    } else {
        kc_items(s.subrange(0, s.len() - 1)) + key_count_of(s[s.len() - 1])
    }
}

pub open spec fn kc_entries(s: Seq<(Seq<char>, JsonModel)>) -> nat
    decreases s,
{
    if s.len() == 0 {
        0
    } else {
        kc_entries(s.subrange(0, s.len() - 1)) + key_count_of(s[s.len() - 1].1)
    }
}

/// The set of type tags present anywhere in a document, the root included.
pub open spec fn types_of(m: JsonModel) -> Set<Seq<char>>
    decreases m,
{
    match m {
        JsonModel::Null => Set::empty().insert(tag_null()),
        JsonModel::Boolean(_) => Set::empty().insert(tag_boolean()),
        JsonModel::Number(_) => Set::empty().insert(tag_number()),
        JsonModel::Text(_) => Set::empty().insert(tag_string()),
        JsonModel::Array(items) => ty_items(items).insert(tag_array()),
        JsonModel::Object(entries) => ty_entries(entries).insert(tag_object()),
    }
}

pub open spec fn ty_items(s: Seq<JsonModel>) -> Set<Seq<char>>
    decreases s,
{
    if s.len() == 0 {
        Set::empty()
    } else {
        ty_items(s.subrange(0, s.len() - 1)).union(types_of(s[s.len() - 1]))
    }
}

pub open spec fn ty_entries(s: Seq<(Seq<char>, JsonModel)>) -> Set<Seq<char>>
    decreases s,
{
    if s.len() == 0 {
        Set::empty()
    } else {
        ty_entries(s.subrange(0, s.len() - 1)).union(types_of(s[s.len() - 1].1))
    }
}

/// A document small and shallow enough for the analyzer to measure exactly.
pub open spec fn analyzable(m: JsonModel) -> bool {
    depth_of(m) <= MAX_NESTING_DEPTH && key_count_of(m) <= usize::MAX
}

proof fn lemma_depth_items_bound(s: Seq<JsonModel>, i: int)
    requires
        0 <= i < s.len(),
    ensures
        depth_of(s[i]) <= max_depth_items(s),
    decreases s.len(),
{
    if i < s.len() - 1 {
        lemma_depth_items_bound(s.subrange(0, s.len() - 1), i);
        assert(s.subrange(0, s.len() - 1)[i] == s[i]);
    }
}

proof fn lemma_depth_entries_bound(s: Seq<(Seq<char>, JsonModel)>, i: int)
    requires
        0 <= i < s.len(),
    ensures
        depth_of(s[i].1) <= max_depth_entries(s),
    decreases s.len(),
{
    if i < s.len() - 1 {
        lemma_depth_entries_bound(s.subrange(0, s.len() - 1), i);
        assert(s.subrange(0, s.len() - 1)[i] == s[i]);
    }
}

proof fn lemma_kc_items_bound(s: Seq<JsonModel>, i: int)
    requires
        0 <= i < s.len(),
    ensures
        kc_items(s) >= kc_items(s.subrange(0, i)) + key_count_of(s[i]),
    decreases s.len(),
{
    if i == s.len() - 1 {
        assert(s.subrange(0, s.len() - 1) =~= s.subrange(0, i));
    } else {
        lemma_kc_items_bound(s.subrange(0, s.len() - 1), i);
        assert(s.subrange(0, s.len() - 1).subrange(0, i) =~= s.subrange(0, i));
        assert(s.subrange(0, s.len() - 1)[i] == s[i]);
    }
}

proof fn lemma_kc_entries_bound(s: Seq<(Seq<char>, JsonModel)>, i: int)
    requires
        0 <= i < s.len(),
    ensures
        kc_entries(s) >= kc_entries(s.subrange(0, i)) + key_count_of(s[i].1),
    decreases s.len(),
{
    if i == s.len() - 1 {
        assert(s.subrange(0, s.len() - 1) =~= s.subrange(0, i));
    } else {
        lemma_kc_entries_bound(s.subrange(0, s.len() - 1), i);
        assert(s.subrange(0, s.len() - 1).subrange(0, i) =~= s.subrange(0, i));
        assert(s.subrange(0, s.len() - 1)[i] == s[i]);
    }
}

proof fn lemma_max_items_le(s: Seq<JsonModel>, bound: nat)
    requires
        forall|k: int| 0 <= k < s.len() ==> depth_of(s[k]) <= bound,
    ensures
        max_depth_items(s) <= bound,
    decreases s.len(),
{
    if s.len() > 0 {
        assert(forall|k: int| 0 <= k < s.len() - 1
            ==> depth_of(#[trigger] s.subrange(0, s.len() - 1)[k]) <= bound);
        lemma_max_items_le(s.subrange(0, s.len() - 1), bound);
    }
}

proof fn lemma_max_entries_le(s: Seq<(Seq<char>, JsonModel)>, bound: nat)
    requires
        forall|k: int| 0 <= k < s.len() ==> depth_of(s[k].1) <= bound,
    ensures
        max_depth_entries(s) <= bound,
    decreases s.len(),
{
    if s.len() > 0 {
        assert(forall|k: int| 0 <= k < s.len() - 1
            ==> depth_of(#[trigger] s.subrange(0, s.len() - 1)[k].1) <= bound);
        lemma_max_entries_le(s.subrange(0, s.len() - 1), bound);
    }
}

/// Decides whether a document stays within the given nesting bound; the
/// walk itself never descends deeper than the bound, whatever the input.
#[verifier::loop_isolation(false)]
pub fn check_depth(v: &JsonValue, limit: usize) -> (r: bool)
    ensures
        r == (depth_of(v@) <= limit),
    decreases v,
{
    match v {
        JsonValue::Array(items) => {
            proof {
                lemma_item_models(items@);
            }
            let ghost ms = item_models(items@);
            if items.len() == 0 {
                return true;
            }
            if limit == 0 {
                return false;
            }
            let mut i: usize = 0;
            while i < items.len()
                invariant
                    0 <= i <= items.len(),
                    forall|k: int| 0 <= k < i ==> depth_of(ms[k]) <= limit - 1,
                decreases items.len() - i,
            {
                if !check_depth(&items[i], limit - 1) {
                    proof {
                        lemma_depth_items_bound(ms, i as int);
                    }
                    return false;
                }
                i = i + 1;
            }
            proof {
                lemma_max_items_le(ms, (limit - 1) as nat);
            }
            true
        },
        JsonValue::Object(entries) => {
            proof {
                lemma_entry_models(entries@);
            }
            let ghost ms = entry_models(entries@);
            if entries.len() == 0 {
                return true;
            }
            if limit == 0 {
                return false;
            }
            let mut i: usize = 0;
            while i < entries.len()
                invariant
                    0 <= i <= entries.len(),
                    forall|k: int| 0 <= k < i ==> depth_of(ms[k].1) <= limit - 1,
                decreases entries.len() - i,
            {
                if !check_depth(&entries[i].1, limit - 1) {
                    proof {
                        lemma_depth_entries_bound(ms, i as int);
                    }
                    return false;
                }
                i = i + 1;
            }
            proof {
                lemma_max_entries_le(ms, (limit - 1) as nat);
            }
            true
        },
        _ => true,
    }
}

/// Which of the six type tags a walk has seen so far.
#[derive(Debug)]
pub struct TypeFlags {
    pub has_object: bool,
    pub has_array: bool,
    pub has_string: bool,
    pub has_number: bool,
    pub has_boolean: bool,
    pub has_null: bool,
}

impl View for TypeFlags {
    type V = Set<Seq<char>>;

    open spec fn view(&self) -> Set<Seq<char>> {
        let s0 = Set::<Seq<char>>::empty();
        let s1 = if self.has_object { s0.insert(tag_object()) } else { s0 };
        let s2 = if self.has_array { s1.insert(tag_array()) } else { s1 };
        let s3 = if self.has_string { s2.insert(tag_string()) } else { s2 };
        let s4 = if self.has_number { s3.insert(tag_number()) } else { s3 };
        let s5 = if self.has_boolean { s4.insert(tag_boolean()) } else { s4 };
        if self.has_null { s5.insert(tag_null()) } else { s5 }
    }
}

impl TypeFlags {
    pub fn none() -> (r: TypeFlags)
        ensures
            r@ == Set::<Seq<char>>::empty(),
    {
        let r = TypeFlags {
            has_object: false,
            has_array: false,
            has_string: false,
            has_number: false,
            has_boolean: false,
            has_null: false,
        };
        proof {
            assert(r@ =~= Set::<Seq<char>>::empty());
        }
        r
    }

    pub fn merge(&mut self, other: &TypeFlags)
        ensures
            final(self)@ == old(self)@.union(other@),
    {
        self.has_object = self.has_object || other.has_object;
        self.has_array = self.has_array || other.has_array;
        self.has_string = self.has_string || other.has_string;
        self.has_number = self.has_number || other.has_number;
        self.has_boolean = self.has_boolean || other.has_boolean;
        self.has_null = self.has_null || other.has_null;
        proof {
            assert(self@ =~= old(self)@.union(other@));
        }
    }
}

/// One walk of the tree: the returned triple is the absolute depth reached
/// when the walk starts `depth` levels down, the number of object keys, and
/// the set of type tags. `None` exactly when the document breaks a machine
/// bound: nesting past `MAX_NESTING_DEPTH`, or more keys than a usize holds.
#[verifier::loop_isolation(false)]
#[verifier::rlimit(80)]
pub fn analyze_json_value(v: &JsonValue, depth: usize) -> (r: Option<(usize, usize, TypeFlags)>)
    requires
        depth <= MAX_NESTING_DEPTH,
    ensures
        r is Some <==> depth + depth_of(v@) <= MAX_NESTING_DEPTH
            && key_count_of(v@) <= usize::MAX,
        r matches Some(t) ==> {
            &&& t.0 == depth + depth_of(v@)
            &&& t.1 == key_count_of(v@)
            &&& t.2@ == types_of(v@)
        },
    decreases v,
{
    match v {
        JsonValue::Null => {
            let mut f = TypeFlags::none();
            f.has_null = true;
            proof {
                assert(f@ =~= types_of(v@));
            }
            Some((depth, 0, f))
        },
        JsonValue::Boolean(_) => {
            let mut f = TypeFlags::none();
            f.has_boolean = true;
            proof {
                assert(f@ =~= types_of(v@));
            }
            Some((depth, 0, f))
        },
        JsonValue::Number(_) => {
            let mut f = TypeFlags::none();
            f.has_number = true;
            proof {
                assert(f@ =~= types_of(v@));
            }
            Some((depth, 0, f))
        },
        JsonValue::Text(_) => {
            let mut f = TypeFlags::none();
            f.has_string = true;
            proof {
                assert(f@ =~= types_of(v@));
            }
            Some((depth, 0, f))
        },
        JsonValue::Array(items) => {
            let ghost ms = item_models(items@);
            proof {
                lemma_item_models(items@);
            }
            if items.len() == 0 {
                let mut f = TypeFlags::none();
                f.has_array = true;
                proof {
                    assert(ty_items(ms) =~= Set::<Seq<char>>::empty());
                    assert(f@ =~= types_of(v@));
                }
                return Some((depth, 0, f));
            }
            if depth == MAX_NESTING_DEPTH {
                proof {
                    assert(depth_of(v@) >= 1);
                }
                return None;
            }
            let mut md: usize = depth;
            let mut kc: usize = 0;
            let mut f = TypeFlags::none();
            f.has_array = true;
            let mut idx: usize = 0;
            proof {
                assert(ms.subrange(0, 0) =~= Seq::<JsonModel>::empty());
                assert(f@ =~= Set::<Seq<char>>::empty().insert(tag_array()).union(
                    ty_items(ms.subrange(0, 0))));
            }
            while idx < items.len()
                invariant
                    0 <= idx <= items.len(),
                    depth < MAX_NESTING_DEPTH,
                    items.len() > 0,
                    ms == item_models(items@),
                    ms.len() == items@.len(),
                    forall|k: int| 0 <= k < items@.len() ==> ms[k] == model_of(items@[k]),
                    v@ == JsonModel::Array(ms),
                    md as int == depth + (if idx == 0 { 0int } else {
                        1 + max_depth_items(ms.subrange(0, idx as int)) as int
                    }),
                    md <= MAX_NESTING_DEPTH,
                    kc == kc_items(ms.subrange(0, idx as int)),
                    f@ == Set::<Seq<char>>::empty().insert(tag_array()).union(
                        ty_items(ms.subrange(0, idx as int))),
                decreases items.len() - idx,
            {
                proof {
                    assert(decreases_to!(*v => *items));
                    assert(decreases_to!(*items => items@));
                    assert(decreases_to!(items@ => items@[idx as int]));
                }
                let child = analyze_json_value(&items[idx], depth + 1);
                match child {
                    None => {
                        proof {
                            if depth + 1 + depth_of(ms[idx as int]) > MAX_NESTING_DEPTH {
                                lemma_depth_items_bound(ms, idx as int);
                                assert(depth + depth_of(v@) > MAX_NESTING_DEPTH);
                            } else {
                                lemma_kc_items_bound(ms, idx as int);
                                assert(key_count_of(v@) > usize::MAX);
                            }
                        }
                        return None;
                    },
                    Some((cd, ck, cf)) => {
                        proof {
                            lemma_kc_items_bound(ms, idx as int);
                        }
                        let kc2 = match kc.checked_add(ck) {
                            Some(x) => x,
                            None => {
                                return None;
                            },
                        };
                        let md2 = if cd > md { cd } else { md };
                        let ghost fprev = f@;
                        f.merge(&cf);
                        proof {
                            let pre = ms.subrange(0, idx as int);
                            let post = ms.subrange(0, idx as int + 1);
                            assert(post.subrange(0, post.len() - 1) =~= pre);
                            assert(post[post.len() - 1] == ms[idx as int]);
                            assert(kc_items(post) == kc_items(pre) + key_count_of(ms[idx as int]));
                            assert(max_depth_items(post) == if depth_of(ms[idx as int])
                                > max_depth_items(pre) { depth_of(ms[idx as int]) } else {
                                max_depth_items(pre) });
                            assert(f@ =~= Set::<Seq<char>>::empty().insert(tag_array()).union(
                                ty_items(post)));
                        }
                        kc = kc2;
                        md = md2;
                    },
                }
                idx = idx + 1;
            }
            proof {
                assert(ms.subrange(0, ms.len() as int) =~= ms);
                assert(md == depth + depth_of(v@));
                assert(kc == key_count_of(v@));
                assert(f@ =~= types_of(v@));
            }
            Some((md, kc, f))
        },
        JsonValue::Object(entries) => {
            let ghost ms = entry_models(entries@);
            proof {
                lemma_entry_models(entries@);
            }
            if entries.len() == 0 {
                let mut f = TypeFlags::none();
                f.has_object = true;
                proof {
                    assert(ty_entries(ms) =~= Set::<Seq<char>>::empty());
                    assert(f@ =~= types_of(v@));
                }
                return Some((depth, 0, f));
            }
            if depth == MAX_NESTING_DEPTH {
                proof {
                    assert(depth_of(v@) >= 1);
                }
                return None;
            }
            let mut md: usize = depth;
            let mut kc: usize = entries.len();
            let mut f = TypeFlags::none();
            f.has_object = true;
            let mut idx: usize = 0;
            proof {
                assert(ms.subrange(0, 0) =~= Seq::<(Seq<char>, JsonModel)>::empty());
                assert(f@ =~= Set::<Seq<char>>::empty().insert(tag_object()).union(
                    ty_entries(ms.subrange(0, 0))));
            }
            while idx < entries.len()
                invariant
                    0 <= idx <= entries.len(),
                    depth < MAX_NESTING_DEPTH,
                    entries.len() > 0,
                    ms == entry_models(entries@),
                    ms.len() == entries@.len(),
                    forall|k: int| 0 <= k < entries@.len() ==> ms[k]
                        == (entries@[k].0@, model_of(entries@[k].1)),
                    v@ == JsonModel::Object(ms),
                    md as int == depth + (if idx == 0 { 0int } else {
                        1 + max_depth_entries(ms.subrange(0, idx as int)) as int
                    }),
                    md <= MAX_NESTING_DEPTH,
                    kc as int == entries@.len() + kc_entries(ms.subrange(0, idx as int)),
                    f@ == Set::<Seq<char>>::empty().insert(tag_object()).union(
                        ty_entries(ms.subrange(0, idx as int))),
                decreases entries.len() - idx,
            {
                proof {
                    assert(decreases_to!(*v => *entries));
                    assert(decreases_to!(*entries => entries@));
                    assert(decreases_to!(entries@ => entries@[idx as int]));
                    assert(decreases_to!(entries@[idx as int] => entries@[idx as int].1));
                }
                let child = analyze_json_value(&entries[idx].1, depth + 1);
                match child {
                    None => {
                        proof {
                            if depth + 1 + depth_of(ms[idx as int].1) > MAX_NESTING_DEPTH {
                                lemma_depth_entries_bound(ms, idx as int);
                                assert(depth + depth_of(v@) > MAX_NESTING_DEPTH);
                            } else {
                                lemma_kc_entries_bound(ms, idx as int);
                                assert(key_count_of(v@) > usize::MAX);
                            }
                        }
                        return None;
                    },
                    Some((cd, ck, cf)) => {
                        proof {
                            lemma_kc_entries_bound(ms, idx as int);
                        }
                        let kc2 = match kc.checked_add(ck) {
                            Some(x) => x,
                            None => {
                                return None;
                            },
                        };
                        let md2 = if cd > md { cd } else { md };
                        f.merge(&cf);
                        proof {
                            let pre = ms.subrange(0, idx as int);
                            let post = ms.subrange(0, idx as int + 1);
                            assert(post.subrange(0, post.len() - 1) =~= pre);
                            assert(post[post.len() - 1] == ms[idx as int]);
                            assert(kc_entries(post)
                                == kc_entries(pre) + key_count_of(ms[idx as int].1));
                            assert(max_depth_entries(post) == if depth_of(ms[idx as int].1)
                                > max_depth_entries(pre) { depth_of(ms[idx as int].1) } else {
                                max_depth_entries(pre) });
                            assert(f@ =~= Set::<Seq<char>>::empty().insert(tag_object()).union(
                                ty_entries(post)));
                        }
                        kc = kc2;
                        md = md2;
                    },
                }
                idx = idx + 1;
            }
            proof {
                assert(ms.subrange(0, ms.len() as int) =~= ms);
                assert(md == depth + depth_of(v@));
                assert(kc == key_count_of(v@));
                assert(f@ =~= types_of(v@));
            }
            Some((md, kc, f))
        },
    }
}

/// The six tags differ pairwise, so a set of them is decided flag by flag.
proof fn lemma_tags_distinct()
    ensures
        tag_object() != tag_array(),
        tag_object() != tag_string(),
        tag_object() != tag_number(),
        tag_object() != tag_boolean(),
        tag_object() != tag_null(),
        tag_array() != tag_string(),
        tag_array() != tag_number(),
        tag_array() != tag_boolean(),
        tag_array() != tag_null(),
        tag_string() != tag_number(),
        tag_string() != tag_boolean(),
        tag_string() != tag_null(),
        tag_number() != tag_boolean(),
        tag_number() != tag_null(),
        tag_boolean() != tag_null(),
{
    reveal_strlit("object");
    reveal_strlit("array");
    reveal_strlit("string");
    reveal_strlit("number");
    reveal_strlit("boolean");
    reveal_strlit("null");
    assert(tag_object().len() == 6);
    assert(tag_array().len() == 5);
    assert(tag_string().len() == 6);
    assert(tag_number().len() == 6);
    assert(tag_boolean().len() == 7);
    assert(tag_null().len() == 4);
    assert(tag_object()[0] == 'o');
    assert(tag_string()[0] == 's');
    assert(tag_number()[0] == 'n');
}

proof fn lemma_flags_membership(f: TypeFlags)
    ensures
        f@.contains(tag_object()) == f.has_object,
        f@.contains(tag_array()) == f.has_array,
        f@.contains(tag_string()) == f.has_string,
        f@.contains(tag_number()) == f.has_number,
        f@.contains(tag_boolean()) == f.has_boolean,
        f@.contains(tag_null()) == f.has_null,
{
    lemma_tags_distinct();
}

/// The type tags of a document, listed in one fixed report order.
pub open spec fn type_list_of(ts: Set<Seq<char>>) -> Seq<Seq<char>> {
    (if ts.contains(tag_object()) { seq![tag_object()] } else { Seq::empty() })
    + (if ts.contains(tag_array()) { seq![tag_array()] } else { Seq::empty() })
    + (if ts.contains(tag_string()) { seq![tag_string()] } else { Seq::empty() })
    + (if ts.contains(tag_number()) { seq![tag_number()] } else { Seq::empty() })
    + (if ts.contains(tag_boolean()) { seq![tag_boolean()] } else { Seq::empty() })
    + (if ts.contains(tag_null()) { seq![tag_null()] } else { Seq::empty() })
}

proof fn lemma_cat_contains(x: Seq<Seq<char>>, y: Seq<Seq<char>>, e: Seq<char>)
    ensures
        (x + y).contains(e) <==> x.contains(e) || y.contains(e),
{
    if (x + y).contains(e) {
        let i = choose|i: int| 0 <= i < (x + y).len() && (x + y)[i] == e;
        if i < x.len() {
            assert(x[i] == e);
        } else {
            assert(y[i - x.len()] == e);
        }
    }
    if x.contains(e) {
        let i = choose|i: int| 0 <= i < x.len() && x[i] == e;
        assert((x + y)[i] == e);
    }
    if y.contains(e) {
        let i = choose|i: int| 0 <= i < y.len() && y[i] == e;
        assert((x + y)[x.len() + i] == e);
    }
}

/// The tag list is a set in list form: each present tag appears once and
/// nothing else does.
#[verifier::rlimit(60)]
pub proof fn lemma_type_list_is_a_set(f: TypeFlags)
    ensures
        type_list_of(f@).no_duplicates(),
        forall|t: Seq<char>| #[trigger] type_list_of(f@).contains(t) <==> f@.contains(t),
{
    lemma_tags_distinct();
    lemma_flags_membership(f);
    let ts = f@;
    let sa = if ts.contains(tag_object()) { seq![tag_object()] } else { Seq::<Seq<char>>::empty() };
    let sb = if ts.contains(tag_array()) { seq![tag_array()] } else { Seq::<Seq<char>>::empty() };
    let sc = if ts.contains(tag_string()) { seq![tag_string()] } else { Seq::<Seq<char>>::empty() };
    let sd = if ts.contains(tag_number()) { seq![tag_number()] } else { Seq::<Seq<char>>::empty() };
    let se = if ts.contains(tag_boolean()) { seq![tag_boolean()] } else { Seq::<Seq<char>>::empty() };
    let sf = if ts.contains(tag_null()) { seq![tag_null()] } else { Seq::<Seq<char>>::empty() };
    assert forall|t: Seq<char>| #[trigger] type_list_of(ts).contains(t) <==> ts.contains(t) by {
        lemma_cat_contains(sa, sb, t);
        lemma_cat_contains(sa + sb, sc, t);
        lemma_cat_contains(sa + sb + sc, sd, t);
        lemma_cat_contains(sa + sb + sc + sd, se, t);
        lemma_cat_contains(sa + sb + sc + sd + se, sf, t);
        if ts.contains(tag_object()) {
            assert(sa[0] == tag_object());
        }
        if ts.contains(tag_array()) {
            assert(sb[0] == tag_array());
        }
        if ts.contains(tag_string()) {
            assert(sc[0] == tag_string());
        }
        if ts.contains(tag_number()) {
            assert(sd[0] == tag_number());
        }
        if ts.contains(tag_boolean()) {
            assert(se[0] == tag_boolean());
        }
        if ts.contains(tag_null()) {
            assert(sf[0] == tag_null());
        }
    }
}

/// Renders a flag set as the fixed-order tag list.
#[verifier::rlimit(30)]
fn type_tag_list(f: &TypeFlags) -> (r: Vec<String>)
    ensures
        r@.map_values(|s: String| s@) == type_list_of(f@),
{
    proof {
        lemma_flags_membership(*f);
    }
    let mut r: Vec<String> = Vec::new();
    if f.has_object {
        r.push(String::from_str("object"));
    }
    if f.has_array {
        r.push(String::from_str("array"));
    }
    if f.has_string {
        r.push(String::from_str("string"));
    }
    if f.has_number {
        r.push(String::from_str("number"));
    }
    if f.has_boolean {
        r.push(String::from_str("boolean"));
    }
    if f.has_null {
        r.push(String::from_str("null"));
    }
    proof {
        assert(r@.map_values(|s: String| s@) =~= type_list_of(f@));
    }
    r
}

/// The shape report of one document.
#[derive(Debug)]
pub struct JsonInfo {
    pub is_valid: bool,
    pub size: usize,
    pub depth: usize,
    pub key_count: usize,
    pub value_types: Vec<String>,
}

/// Parses the text and measures the document: its byte size, its nesting
/// depth, its object-key count, and the set of value types it holds. Fails
/// exactly on text the parser rejects, or on a document past the machine
/// bounds (nesting deeper than `MAX_NESTING_DEPTH`, keys past usize).
pub fn get_json_info(json_str: String) -> (r: Result<JsonInfo, String>)
    ensures
        r is Ok <==> (spec_parse(json_str@) matches Some(m) && analyzable(m)),
        spec_parse(json_str@) is None ==> (r matches Err(msg)
            ==> exists|e: Seq<char>| msg@ == "JSON解析错误: "@ + e),
        (spec_parse(json_str@) matches Some(m) && !analyzable(m)) ==> (r matches Err(msg)
            ==> msg@ == "JSON嵌套过深或键过多"@),
        r matches Ok(info) ==> (spec_parse(json_str@) matches Some(m) ==> {
            &&& info.is_valid == true
            &&& info.size == encode_utf8(json_str@).len() as usize
            &&& info.depth == depth_of(m)
            &&& info.key_count == key_count_of(m)
            &&& info.value_types@.map_values(|s: String| s@) == type_list_of(types_of(m))
        }),
{
    let text = json_str.as_str();
    let size = text.len();
    proof {
        assert(text.spec_bytes() == encode_utf8(text@));
    }
    let value = match parse_json(text) {
        Ok(v) => v,
        Err(e) => {
            return Err(concat_str("JSON解析错误: ", e.as_str()));
        },
    };
    match analyze_json_value(&value, 0) {
        Some((depth, key_count, flags)) => Ok(JsonInfo {
            is_valid: true,
            size,
            depth,
            key_count,
            value_types: type_tag_list(&flags),
        }),
        None => Err(String::from_str("JSON嵌套过深或键过多")),
    }
}

} // verus!
