use vstd::prelude::*;
use crate::value::{JsonValue, JsonModel, item_models, entry_models, lemma_item_models,
    lemma_entry_models};
use crate::strutil::{lex_lt, lemma_lex_irrefl, lemma_lex_connex, lemma_lex_asym, lemma_lex_trans,
    str_lt, concat_str};
use crate::paths::{key_path, index_path, path_extend_key, path_extend_index};
use crate::analyze::{MAX_NESTING_DEPTH, depth_of, check_depth};
use crate::jsontext::{parse_json, spec_parse};

verus! {

/// The four bins of one structural comparison: every compared position lands
/// in exactly one of them.
#[verifier::ext_equal]
pub ghost struct DiffModel {
    pub added: Seq<Seq<char>>,
    pub removed: Seq<Seq<char>>,
    pub modified: Seq<(Seq<char>, JsonModel, JsonModel)>,
    pub unchanged: Seq<Seq<char>>,
}

pub open spec fn diff_empty() -> DiffModel {
    DiffModel {
        added: Seq::empty(),
        removed: Seq::empty(),
        modified: Seq::empty(),
        unchanged: Seq::empty(),
    }
}

pub open spec fn diff_cat(x: DiffModel, y: DiffModel) -> DiffModel {
    DiffModel {
        added: x.added + y.added,
        removed: x.removed + y.removed,
        modified: x.modified + y.modified,
        unchanged: x.unchanged + y.unchanged,
    }
}

pub open spec fn diff_one_added(path: Seq<char>) -> DiffModel {
    DiffModel { added: seq![path], ..diff_empty() }
}

pub open spec fn diff_one_removed(path: Seq<char>) -> DiffModel {
    DiffModel { removed: seq![path], ..diff_empty() }
}

pub open spec fn diff_one_modified(path: Seq<char>, a: JsonModel, b: JsonModel) -> DiffModel {
    DiffModel { modified: seq![(path, a, b)], ..diff_empty() }
}

pub open spec fn diff_one_unchanged(path: Seq<char>) -> DiffModel {
    DiffModel { unchanged: seq![path], ..diff_empty() }
}

pub proof fn lemma_diff_cat_assoc(x: DiffModel, y: DiffModel, z: DiffModel)
    ensures
        diff_cat(diff_cat(x, y), z) == diff_cat(x, diff_cat(y, z)),
{
    assert(diff_cat(diff_cat(x, y), z) =~~= diff_cat(x, diff_cat(y, z)));
}

pub proof fn lemma_diff_cat_empty(x: DiffModel)
    ensures
        diff_cat(x, diff_empty()) == x,
        diff_cat(diff_empty(), x) == x,
{
    assert(diff_cat(x, diff_empty()) =~~= x);
    assert(diff_cat(diff_empty(), x) =~~= x);
}

pub open spec fn budget(m: JsonModel) -> nat {
    match m {
        JsonModel::Array(items) => items.len(),
        JsonModel::Object(entries) => entries.len(),
        _ => 0,
    }
}

/// The structural difference of two documents at one path. Two objects are
/// walked key by key in sorted key order; two arrays are aligned position by
/// position; any other pairing is one leaf, unchanged when equal and a whole
/// replacement when not.
pub open spec fn diff_of(a: JsonModel, b: JsonModel, path: Seq<char>) -> DiffModel
    decreases a, b, budget(a) + budget(b) + 1,
{
    if a is Object && b is Object {
        diff_objects(a, b, 0, 0, path)
    } else if a is Array && b is Array {
        diff_arrays(a, b, 0, path)
    } else if a == b {
        diff_one_unchanged(path)
    } else {
        diff_one_modified(path, a, b)
    }
}

/// The merge walk over the sorted member lists of two objects, from entry
/// `i` of the old side and entry `j` of the new side on: a key only on the
/// old side is removed, one only on the new side is added, a shared key is
/// compared recursively.
pub open spec fn diff_objects(a: JsonModel, b: JsonModel, i: int, j: int, path: Seq<char>)
    -> DiffModel
    decreases a, b,
        (if i <= a->Object_0.len() { a->Object_0.len() - i } else { 0 })
        + (if j <= b->Object_0.len() { b->Object_0.len() - j } else { 0 }),
    when a is Object && b is Object && 0 <= i && 0 <= j
{
    let es1 = a->Object_0;
    let es2 = b->Object_0;
    if i >= es1.len() && j >= es2.len() {
        diff_empty()
    } else if j >= es2.len() || (i < es1.len() && lex_lt(es1[i].0, es2[j].0)) {
        diff_cat(
            diff_one_removed(key_path(path, es1[i].0)),
            diff_objects(a, b, i + 1, j, path),
        )
    } else if i >= es1.len() || lex_lt(es2[j].0, es1[i].0) {
        diff_cat(
            diff_one_added(key_path(path, es2[j].0)),
            diff_objects(a, b, i, j + 1, path),
        )
    } else {
        diff_cat(
            diff_of(es1[i].1, es2[j].1, key_path(path, es1[i].0)),
            diff_objects(a, b, i + 1, j + 1, path),
        )
    }
}

/// The positional walk over two arrays from index `k` on: indexes both
/// sides hold are compared recursively, a longer new side adds, a longer
/// old side removes.
pub open spec fn diff_arrays(a: JsonModel, b: JsonModel, k: int, path: Seq<char>) -> DiffModel
    decreases a, b,
        (if a->Array_0.len() > b->Array_0.len() { a->Array_0.len() } else { b->Array_0.len() })
            - k,
    when a is Array && b is Array && 0 <= k
{
    let s1 = a->Array_0;
    let s2 = b->Array_0;
    let n: int = if s1.len() > s2.len() { s1.len() as int } else { s2.len() as int };
    if k >= n {
        diff_empty()
    } else {
        let p = index_path(path, k as nat);
        let head = if k < s1.len() && k < s2.len() {
            diff_of(s1[k], s2[k], p)
        } else if k >= s1.len() {
            diff_one_added(p)
        } else {
            diff_one_removed(p)
        };
        diff_cat(head, diff_arrays(a, b, k + 1, path))
    }
}

/// Decides full structural equality of two documents.
#[verifier::loop_isolation(false)]
pub fn values_equal(a: &JsonValue, b: &JsonValue) -> (r: bool)
    ensures
        r == (a@ == b@),
    decreases a,
{
    match (a, b) {
        (JsonValue::Null, JsonValue::Null) => {
            proof { assert(a@ == b@); }
            true
        },
        (JsonValue::Boolean(x), JsonValue::Boolean(y)) => {
            let r = x == y;
            proof { assert(r == (a@ == b@)); }
            r
        },
        (JsonValue::Number(x), JsonValue::Number(y)) => {
            let r = *x == *y;
            proof { assert(r == (a@ == b@)); }
            r
        },
        (JsonValue::Text(x), JsonValue::Text(y)) => {
            let r = *x == *y;
            proof { assert(r == (a@ == b@)); }
            r
        },
        (JsonValue::Array(xs), JsonValue::Array(ys)) => {
            proof {
                lemma_item_models(xs@);
                lemma_item_models(ys@);
            }
            if xs.len() != ys.len() {
                return false;
            }
            let mut i: usize = 0;
            while i < xs.len()
                invariant
                    0 <= i <= xs.len(),
                    forall|k: int| 0 <= k < i ==> item_models(xs@)[k] == item_models(ys@)[k],
                decreases xs.len() - i,
            {
                if !values_equal(&xs[i], &ys[i]) {
                    proof {
                        assert(item_models(xs@)[i as int] != item_models(ys@)[i as int]);
                        assert(a@ != b@);
                    }
                    return false;
                }
                i = i + 1;
            }
            proof {
                assert(item_models(xs@) =~= item_models(ys@));
                assert(a@ == b@);
            }
            true
        },
        (JsonValue::Object(xs), JsonValue::Object(ys)) => {
            proof {
                lemma_entry_models(xs@);
                lemma_entry_models(ys@);
            }
            if xs.len() != ys.len() {
                return false;
            }
            let mut i: usize = 0;
            while i < xs.len()
                invariant
                    0 <= i <= xs.len(),
                    forall|k: int| 0 <= k < i ==> entry_models(xs@)[k] == entry_models(ys@)[k],
                decreases xs.len() - i,
            {
                if !(xs[i].0 == ys[i].0) {
                    proof {
                        assert(entry_models(xs@)[i as int].0 != entry_models(ys@)[i as int].0);
                        assert(entry_models(xs@)[i as int] != entry_models(ys@)[i as int]);
                        assert(a@ != b@);
                    }
                    return false;
                }
                if !values_equal(&xs[i].1, &ys[i].1) {
                    proof {
                        assert(entry_models(xs@)[i as int].1 != entry_models(ys@)[i as int].1);
                        assert(entry_models(xs@)[i as int] != entry_models(ys@)[i as int]);
                        assert(a@ != b@);
                    }
                    return false;
                }
                proof {
                    assert(entry_models(xs@)[i as int] =~= entry_models(ys@)[i as int]);
                }
                i = i + 1;
            }
            proof {
                assert(entry_models(xs@) =~= entry_models(ys@));
                assert(a@ == b@);
            }
            true
        },
        _ => {
            proof {
                assert(a@ != b@);
            }
            false
        },
    }
}

impl JsonValue {
    /// A fresh copy whose model is the same document.
    #[verifier::loop_isolation(false)]
    pub fn deep_clone(&self) -> (r: JsonValue)
        ensures
            r@ == self@,
        decreases self,
    {
        match self {
            JsonValue::Null => JsonValue::Null,
            JsonValue::Boolean(b) => JsonValue::Boolean(*b),
            JsonValue::Number(s) => JsonValue::Number(s.clone()),
            JsonValue::Text(s) => JsonValue::Text(s.clone()),
            JsonValue::Array(items) => {
                proof {
                    lemma_item_models(items@);
                }
                let mut out: Vec<JsonValue> = Vec::new();
                let mut i: usize = 0;
                while i < items.len()
                    invariant
                        0 <= i <= items.len(),
                        out@.len() == i,
                        forall|k: int| 0 <= k < i ==> out@[k]@ == items@[k]@,
                    decreases items.len() - i,
                {
                    out.push(items[i].deep_clone());
                    i = i + 1;
                }
                proof {
                    lemma_item_models(out@);
                    assert(item_models(out@) =~= item_models(items@));
                }
                JsonValue::Array(out)
            },
            JsonValue::Object(entries) => {
                proof {
                    lemma_entry_models(entries@);
                }
                let mut out: Vec<(String, JsonValue)> = Vec::new();
                let mut i: usize = 0;
                while i < entries.len()
                    invariant
                        0 <= i <= entries.len(),
                        out@.len() == i,
                        forall|k: int| 0 <= k < i ==> out@[k].0@ == entries@[k].0@
                            && out@[k].1@ == entries@[k].1@,
                    decreases entries.len() - i,
                {
                    out.push((entries[i].0.clone(), entries[i].1.deep_clone()));
                    i = i + 1;
                }
                proof {
                    lemma_entry_models(out@);
                    assert(entry_models(out@) =~= entry_models(entries@));
                }
                JsonValue::Object(out)
            },
        }
    }
}

/// One replaced position: the path, and verbatim snapshots of both sides.
#[derive(Debug)]
pub struct JsonDiffChange {
    pub path: String,
    pub old_value: JsonValue,
    pub new_value: JsonValue,
}

impl View for JsonDiffChange {
    type V = (Seq<char>, JsonModel, JsonModel);

    open spec fn view(&self) -> (Seq<char>, JsonModel, JsonModel) {
        (self.path@, self.old_value@, self.new_value@)
    }
}

/// The four bins a comparison of two documents returns.
#[derive(Debug)]
pub struct JsonDiffResult {
    pub added: Vec<String>,
    pub removed: Vec<String>,
    pub modified: Vec<JsonDiffChange>,
    pub unchanged: Vec<String>,
}

impl View for JsonDiffResult {
    type V = DiffModel;

    open spec fn view(&self) -> DiffModel {
        DiffModel {
            added: self.added@.map_values(|s: String| s@),
            removed: self.removed@.map_values(|s: String| s@),
            modified: self.modified@.map_values(|c: JsonDiffChange| c@),
            unchanged: self.unchanged@.map_values(|s: String| s@),
        }
    }
}

impl JsonDiffResult {
    pub fn new() -> (r: JsonDiffResult)
        ensures
            r@ == diff_empty(),
    {
        let r = JsonDiffResult {
            added: Vec::new(),
            removed: Vec::new(),
            modified: Vec::new(),
            unchanged: Vec::new(),
        };
        proof {
            assert(r@ =~~= diff_empty());
        }
        r
    }
}

/// Walks two documents in step and sorts every compared position into the
/// four bins, appending to what `out` already holds.
#[verifier::loop_isolation(false)]
#[verifier::rlimit(100)]
pub fn compare_values(v1: &JsonValue, v2: &JsonValue, path: &String, out: &mut JsonDiffResult)
    ensures
        final(out)@ == diff_cat(old(out)@, diff_of(v1@, v2@, path@)),
    decreases v1,
{
    let ghost a = v1@;
    let ghost b = v2@;
    match (v1, v2) {
        (JsonValue::Object(es1), JsonValue::Object(es2)) => {
            proof {
                lemma_entry_models(es1@);
                lemma_entry_models(es2@);
            }
            let ghost ms1 = entry_models(es1@);
            let ghost ms2 = entry_models(es2@);
            let mut i: usize = 0;
            let mut j: usize = 0;
            while i < es1.len() || j < es2.len()
                invariant
                    0 <= i <= es1.len(),
                    0 <= j <= es2.len(),
                    diff_cat(out@, diff_objects(a, b, i as int, j as int, path@))
                        == diff_cat(old(out)@, diff_of(a, b, path@)),
                decreases es1.len() - i + es2.len() - j,
            {
                let ghost out_pre = out@;
                let ghost rest = diff_objects(a, b, i as int, j as int, path@);
                if j >= es2.len() {
                    let p = path_extend_key(path, &es1[i].0);
                    out.removed.push(p);
                    proof {
                        assert(out@ =~~= diff_cat(out_pre, diff_one_removed(
                            key_path(path@, ms1[i as int].0))));
                        assert(rest == diff_cat(
                            diff_one_removed(key_path(path@, ms1[i as int].0)),
                            diff_objects(a, b, i + 1, j as int, path@)));
                        lemma_diff_cat_assoc(out_pre,
                            diff_one_removed(key_path(path@, ms1[i as int].0)),
                            diff_objects(a, b, i + 1, j as int, path@));
                    }
                    i = i + 1;
                } else if i >= es1.len() {
                    let p = path_extend_key(path, &es2[j].0);
                    out.added.push(p);
                    proof {
                        assert(out@ =~~= diff_cat(out_pre, diff_one_added(
                            key_path(path@, ms2[j as int].0))));
                        assert(rest == diff_cat(
                            diff_one_added(key_path(path@, ms2[j as int].0)),
                            diff_objects(a, b, i as int, j + 1, path@)));
                        lemma_diff_cat_assoc(out_pre,
                            diff_one_added(key_path(path@, ms2[j as int].0)),
                            diff_objects(a, b, i as int, j + 1, path@));
                    }
                    j = j + 1;
                } else if es1[i].0 == es2[j].0 {
                    let p = path_extend_key(path, &es1[i].0);
                    proof {
                        lemma_lex_irrefl(ms1[i as int].0);
                    }
                    compare_values(&es1[i].1, &es2[j].1, &p, out);
                    proof {
                        assert(rest == diff_cat(
                            diff_of(ms1[i as int].1, ms2[j as int].1,
                                key_path(path@, ms1[i as int].0)),
                            diff_objects(a, b, i + 1, j + 1, path@)));
                        lemma_diff_cat_assoc(out_pre,
                            diff_of(ms1[i as int].1, ms2[j as int].1,
                                key_path(path@, ms1[i as int].0)),
                            diff_objects(a, b, i + 1, j + 1, path@));
                    }
                    i = i + 1;
                    j = j + 1;
                } else if str_lt(es1[i].0.as_str(), es2[j].0.as_str()) {
                    let p = path_extend_key(path, &es1[i].0);
                    out.removed.push(p);
                    proof {
                        assert(out@ =~~= diff_cat(out_pre, diff_one_removed(
                            key_path(path@, ms1[i as int].0))));
                        assert(rest == diff_cat(
                            diff_one_removed(key_path(path@, ms1[i as int].0)),
                            diff_objects(a, b, i + 1, j as int, path@)));
                        lemma_diff_cat_assoc(out_pre,
                            diff_one_removed(key_path(path@, ms1[i as int].0)),
                            diff_objects(a, b, i + 1, j as int, path@));
                    }
                    i = i + 1;
                } else {
                    let p = path_extend_key(path, &es2[j].0);
                    proof {
                        if !lex_lt(ms2[j as int].0, ms1[i as int].0) {
                            lemma_lex_connex(ms1[i as int].0, ms2[j as int].0);
                        }
                    }
                    out.added.push(p);
                    proof {
                        assert(out@ =~~= diff_cat(out_pre, diff_one_added(
                            key_path(path@, ms2[j as int].0))));
                        assert(rest == diff_cat(
                            diff_one_added(key_path(path@, ms2[j as int].0)),
                            diff_objects(a, b, i as int, j + 1, path@)));
                        lemma_diff_cat_assoc(out_pre,
                            diff_one_added(key_path(path@, ms2[j as int].0)),
                            diff_objects(a, b, i as int, j + 1, path@));
                    }
                    j = j + 1;
                }
            }
            proof {
                assert(diff_objects(a, b, i as int, j as int, path@) == diff_empty());
                lemma_diff_cat_empty(out@);
            }
        },
        (JsonValue::Array(s1), JsonValue::Array(s2)) => {
            proof {
                lemma_item_models(s1@);
                lemma_item_models(s2@);
            }
            let ghost ms1 = item_models(s1@);
            let ghost ms2 = item_models(s2@);
            let n = if s1.len() > s2.len() { s1.len() } else { s2.len() };
            let mut k: usize = 0;
            while k < n
                invariant
                    0 <= k <= n,
                    n == (if s1.len() > s2.len() { s1.len() } else { s2.len() }),
                    diff_cat(out@, diff_arrays(a, b, k as int, path@))
                        == diff_cat(old(out)@, diff_of(a, b, path@)),
                decreases n - k,
            {
                let ghost out_pre = out@;
                let ghost rest = diff_arrays(a, b, k as int, path@);
                let p = path_extend_index(path, k);
                if k < s1.len() && k < s2.len() {
                    compare_values(&s1[k], &s2[k], &p, out);
                    proof {
                        assert(rest == diff_cat(
                            diff_of(ms1[k as int], ms2[k as int], index_path(path@, k as nat)),
                            diff_arrays(a, b, k + 1, path@)));
                        lemma_diff_cat_assoc(out_pre,
                            diff_of(ms1[k as int], ms2[k as int], index_path(path@, k as nat)),
                            diff_arrays(a, b, k + 1, path@));
                    }
                } else if k >= s1.len() {
                    out.added.push(p);
                    proof {
                        assert(out@ =~~= diff_cat(out_pre,
                            diff_one_added(index_path(path@, k as nat))));
                        assert(rest == diff_cat(diff_one_added(index_path(path@, k as nat)),
                            diff_arrays(a, b, k + 1, path@)));
                        lemma_diff_cat_assoc(out_pre,
                            diff_one_added(index_path(path@, k as nat)),
                            diff_arrays(a, b, k + 1, path@));
                    }
                } else {
                    out.removed.push(p);
                    proof {
                        assert(out@ =~~= diff_cat(out_pre,
                            diff_one_removed(index_path(path@, k as nat))));
                        assert(rest == diff_cat(diff_one_removed(index_path(path@, k as nat)),
                            diff_arrays(a, b, k + 1, path@)));
                        lemma_diff_cat_assoc(out_pre,
                            diff_one_removed(index_path(path@, k as nat)),
                            diff_arrays(a, b, k + 1, path@));
                    }
                }
                k = k + 1;
            }
            proof {
                assert(diff_arrays(a, b, k as int, path@) == diff_empty());
                lemma_diff_cat_empty(out@);
            }
        },
        _ => {
            let ghost out_pre = out@;
            if values_equal(v1, v2) {
                out.unchanged.push(path.clone());
                proof {
                    assert(out@ =~~= diff_cat(out_pre, diff_one_unchanged(path@)));
                    assert(diff_of(a, b, path@) == diff_one_unchanged(path@));
                }
            } else {
                out.modified.push(JsonDiffChange {
                    path: path.clone(),
                    old_value: v1.deep_clone(),
                    new_value: v2.deep_clone(),
                });
                proof {
                    assert(out@ =~~= diff_cat(out_pre, diff_one_modified(path@, a, b)));
                    assert(diff_of(a, b, path@) == diff_one_modified(path@, a, b));
                }
            }
        },
    }
}

/// Parses both texts and returns the four bins of their structural
/// difference, the walk seeded at the root path. Fails exactly when a side
/// does not parse — the message names the failing side — or when a document
/// nests past `MAX_NESTING_DEPTH`.
pub fn compare_json(json1: String, json2: String) -> (r: Result<JsonDiffResult, String>)
    ensures
        r is Ok <==> (spec_parse(json1@) matches Some(m1) && spec_parse(json2@) matches Some(m2)
            && depth_of(m1) <= MAX_NESTING_DEPTH && depth_of(m2) <= MAX_NESTING_DEPTH),
        r matches Ok(d) ==> (spec_parse(json1@) matches Some(m1)
            && spec_parse(json2@) matches Some(m2) && d@ == diff_of(m1, m2, "$"@)),
        spec_parse(json1@) is None ==> (r matches Err(msg)
            ==> exists|e: Seq<char>| msg@ == "第一个JSON解析错误: "@ + e),
        (spec_parse(json1@) is Some && spec_parse(json2@) is None) ==> (r matches Err(msg)
            ==> exists|e: Seq<char>| msg@ == "第二个JSON解析错误: "@ + e),
        (spec_parse(json1@) matches Some(m1) && spec_parse(json2@) matches Some(m2)
            && !(depth_of(m1) <= MAX_NESTING_DEPTH && depth_of(m2) <= MAX_NESTING_DEPTH))
            ==> (r matches Err(msg) ==> msg@ == "JSON嵌套过深"@),
{
    let v1 = match parse_json(json1.as_str()) {
        Ok(v) => v,
        Err(e) => {
            return Err(concat_str("第一个JSON解析错误: ", e.as_str()));
        },
    };
    let v2 = match parse_json(json2.as_str()) {
        Ok(v) => v,
        Err(e) => {
            return Err(concat_str("第二个JSON解析错误: ", e.as_str()));
        },
    };
    if !check_depth(&v1, MAX_NESTING_DEPTH) {
        return Err(String::from_str("JSON嵌套过深"));
    }
    if !check_depth(&v2, MAX_NESTING_DEPTH) {
        return Err(String::from_str("JSON嵌套过深"));
    }
    let root = String::from_str("$");
    let mut result = JsonDiffResult::new();
    compare_values(&v1, &v2, &root, &mut result);
    proof {
        lemma_diff_cat_empty(diff_of(v1@, v2@, root@));
    }
    Ok(result)
}

/// The leaf positions of a document: scalar positions, each with its path;
/// an empty object or array has none.
pub open spec fn leaf_paths(m: JsonModel, path: Seq<char>) -> Seq<Seq<char>>
    decreases m, budget(m) + 1,
{
    match m {
        JsonModel::Object(_) => leaf_paths_obj(m, 0, path),
        JsonModel::Array(_) => leaf_paths_arr(m, 0, path),
        _ => seq![path],
    }
}

pub open spec fn leaf_paths_obj(m: JsonModel, i: int, path: Seq<char>) -> Seq<Seq<char>>
    decreases m,
        (if i <= m->Object_0.len() { m->Object_0.len() - i } else { 0 }),
    when m is Object && 0 <= i
{
    let es = m->Object_0;
    if i >= es.len() {
        Seq::empty()
    } else {
        leaf_paths(es[i].1, key_path(path, es[i].0)) + leaf_paths_obj(m, i + 1, path)
    }
}

pub open spec fn leaf_paths_arr(m: JsonModel, k: int, path: Seq<char>) -> Seq<Seq<char>>
    decreases m,
        (if k <= m->Array_0.len() { m->Array_0.len() - k } else { 0 }),
    when m is Array && 0 <= k
{
    let s = m->Array_0;
    if k >= s.len() {
        Seq::empty()
    } else {
        leaf_paths(s[k], index_path(path, k as nat)) + leaf_paths_arr(m, k + 1, path)
    }
}

/// Comparing a document against itself adds, removes and modifies nothing,
/// and reports every leaf path, in walk order, as unchanged.
pub proof fn lemma_diff_reflexive(m: JsonModel, path: Seq<char>)
    ensures
        diff_of(m, m, path).added == Seq::<Seq<char>>::empty(),
        diff_of(m, m, path).removed == Seq::<Seq<char>>::empty(),
        diff_of(m, m, path).modified == Seq::<(Seq<char>, JsonModel, JsonModel)>::empty(),
        diff_of(m, m, path).unchanged == leaf_paths(m, path),
    decreases m, budget(m) + 1,
{
    match m {
        JsonModel::Object(_) => {
            lemma_refl_obj(m, 0, path);
        },
        JsonModel::Array(_) => {
            lemma_refl_arr(m, 0, path);
        },
        _ => {
            assert(diff_of(m, m, path) =~~= DiffModel {
                unchanged: seq![path], ..diff_empty()
            });
        },
    }
}

proof fn lemma_refl_obj(m: JsonModel, i: int, path: Seq<char>)
    requires
        m is Object,
        0 <= i,
    ensures
        diff_objects(m, m, i, i, path).added == Seq::<Seq<char>>::empty(),
        diff_objects(m, m, i, i, path).removed == Seq::<Seq<char>>::empty(),
        diff_objects(m, m, i, i, path).modified
            == Seq::<(Seq<char>, JsonModel, JsonModel)>::empty(),
        diff_objects(m, m, i, i, path).unchanged == leaf_paths_obj(m, i, path),
    decreases m,
        (if i <= m->Object_0.len() { m->Object_0.len() - i } else { 0 }),
{
    let es = m->Object_0;
    if i >= es.len() {
        assert(diff_objects(m, m, i, i, path) == diff_empty());
    } else {
        lemma_lex_irrefl(es[i].0);
        lemma_diff_reflexive(es[i].1, key_path(path, es[i].0));
        lemma_refl_obj(m, i + 1, path);
        assert(diff_objects(m, m, i, i, path) == diff_cat(
            diff_of(es[i].1, es[i].1, key_path(path, es[i].0)),
            diff_objects(m, m, i + 1, i + 1, path)));
        assert(diff_objects(m, m, i, i, path).unchanged =~= leaf_paths_obj(m, i, path));
        assert(diff_objects(m, m, i, i, path).added =~= Seq::<Seq<char>>::empty());
        assert(diff_objects(m, m, i, i, path).removed =~= Seq::<Seq<char>>::empty());
        assert(diff_objects(m, m, i, i, path).modified
            =~= Seq::<(Seq<char>, JsonModel, JsonModel)>::empty());
    }
}

proof fn lemma_refl_arr(m: JsonModel, k: int, path: Seq<char>)
    requires
        m is Array,
        0 <= k,
    ensures
        diff_arrays(m, m, k, path).added == Seq::<Seq<char>>::empty(),
        diff_arrays(m, m, k, path).removed == Seq::<Seq<char>>::empty(),
        diff_arrays(m, m, k, path).modified
            == Seq::<(Seq<char>, JsonModel, JsonModel)>::empty(),
        diff_arrays(m, m, k, path).unchanged == leaf_paths_arr(m, k, path),
    decreases m,
        (if k <= m->Array_0.len() { m->Array_0.len() - k } else { 0 }),
{
    let s = m->Array_0;
    if k >= s.len() {
        assert(diff_arrays(m, m, k, path) == diff_empty());
    } else {
        lemma_diff_reflexive(s[k], index_path(path, k as nat));
        lemma_refl_arr(m, k + 1, path);
        assert(diff_arrays(m, m, k, path) == diff_cat(
            diff_of(s[k], s[k], index_path(path, k as nat)),
            diff_arrays(m, m, k + 1, path)));
        assert(diff_arrays(m, m, k, path).unchanged =~= leaf_paths_arr(m, k, path));
        assert(diff_arrays(m, m, k, path).added =~= Seq::<Seq<char>>::empty());
        assert(diff_arrays(m, m, k, path).removed =~= Seq::<Seq<char>>::empty());
        assert(diff_arrays(m, m, k, path).modified
            =~= Seq::<(Seq<char>, JsonModel, JsonModel)>::empty());
    }
}

proof fn lemma_seq_contains_head<T>(h: Seq<T>, rest: Seq<T>, e: T)
    requires
        h.contains(e) || rest.contains(e),
    ensures
        (h + rest).contains(e),
{
    if h.contains(e) {
        let i = choose|i: int| 0 <= i < h.len() && h[i] == e;
        assert((h + rest)[i] == e);
    } else {
        let i = choose|i: int| 0 <= i < rest.len() && rest[i] == e;
        assert((h + rest)[h.len() + i] == e);
    }
}

proof fn lemma_removed_key_walk(a: JsonModel, b: JsonModel, i: int, j: int, path: Seq<char>,
    k: Seq<char>)
    requires
        a is Object,
        b is Object,
        0 <= i,
        0 <= j <= b->Object_0.len(),
        exists|t: int| i <= t < a->Object_0.len() && (#[trigger] a->Object_0[t]).0 == k,
        forall|t: int| j <= t < b->Object_0.len() ==> (#[trigger] b->Object_0[t]).0 != k,
    ensures
        diff_objects(a, b, i, j, path).removed.contains(key_path(path, k)),
    decreases a->Object_0.len() - i + b->Object_0.len() - j,
{
    let es1 = a->Object_0;
    let es2 = b->Object_0;
    let t0 = choose|t: int| i <= t < es1.len() && (#[trigger] es1[t]).0 == k;
    assert(i < es1.len());
    let d = diff_objects(a, b, i, j, path);
    if j >= es2.len() || (i < es1.len() && lex_lt(es1[i].0, es2[j].0)) {
        let rest = diff_objects(a, b, i + 1, j, path);
        if es1[i].0 == k {
            assert(seq![key_path(path, k)][0] == key_path(path, k));
            lemma_seq_contains_head(seq![key_path(path, k)], rest.removed,
                key_path(path, k));
        } else {
            lemma_removed_key_walk(a, b, i + 1, j, path, k);
            lemma_seq_contains_head(seq![key_path(path, es1[i].0)], rest.removed,
                key_path(path, k));
        }
    } else if i >= es1.len() || lex_lt(es2[j].0, es1[i].0) {
        lemma_removed_key_walk(a, b, i, j + 1, path, k);
        assert(d.removed == diff_objects(a, b, i, j + 1, path).removed);
    } else {
        // shared key: it cannot be k, which the new side does not hold
        lemma_lex_connex(es1[i].0, es2[j].0);
        assert(es2[j].0 != k);
        assert(es1[i].0 != k);
        lemma_removed_key_walk(a, b, i + 1, j + 1, path, k);
        lemma_seq_contains_head(
            diff_of(es1[i].1, es2[j].1, key_path(path, es1[i].0)).removed,
            diff_objects(a, b, i + 1, j + 1, path).removed,
            key_path(path, k),
        );
    }
}

/// A member key the old object holds and the new one does not is reported
/// as removed at the member's path.
pub proof fn lemma_removed_key_reported(a: JsonModel, b: JsonModel, path: Seq<char>,
    k: Seq<char>)
    requires
        a is Object,
        b is Object,
        exists|t: int| 0 <= t < a->Object_0.len() && (#[trigger] a->Object_0[t]).0 == k,
        forall|t: int| 0 <= t < b->Object_0.len() ==> (#[trigger] b->Object_0[t]).0 != k,
    ensures
        diff_of(a, b, path).removed.contains(key_path(path, k)),
{
    lemma_removed_key_walk(a, b, 0, 0, path, k);
}

/// A member key the new object holds and the old one does not is reported
/// as added at the member's path.
pub proof fn lemma_added_key_reported(a: JsonModel, b: JsonModel, path: Seq<char>,
    k: Seq<char>)
    requires
        a is Object,
        b is Object,
        exists|t: int| 0 <= t < b->Object_0.len() && (#[trigger] b->Object_0[t]).0 == k,
        forall|t: int| 0 <= t < a->Object_0.len() ==> (#[trigger] a->Object_0[t]).0 != k,
    ensures
        diff_of(a, b, path).added.contains(key_path(path, k)),
{
    lemma_removed_key_walk(b, a, 0, 0, path, k);
    lemma_diff_symmetric(a, b, path);
}

proof fn lemma_shared_key_walk(a: JsonModel, b: JsonModel, x: int, y: int, i: int, j: int,
    path: Seq<char>)
    requires
        a is Object,
        b is Object,
        crate::value::sorted_keys(a->Object_0),
        crate::value::sorted_keys(b->Object_0),
        0 <= x <= i < a->Object_0.len(),
        0 <= y <= j < b->Object_0.len(),
        a->Object_0[i].0 == b->Object_0[j].0,
    ensures
        ({
            let child = diff_of(a->Object_0[i].1, b->Object_0[j].1,
                key_path(path, a->Object_0[i].0));
            let whole = diff_objects(a, b, x, y, path);
            &&& forall|p: Seq<char>| child.added.contains(p) ==> whole.added.contains(p)
            &&& forall|p: Seq<char>| child.removed.contains(p) ==> whole.removed.contains(p)
            &&& forall|p: Seq<char>| child.unchanged.contains(p) ==> whole.unchanged.contains(p)
            &&& forall|e: (Seq<char>, JsonModel, JsonModel)| child.modified.contains(e)
                ==> whole.modified.contains(e)
        }),
    decreases i - x + j - y,
{
    let es1 = a->Object_0;
    let es2 = b->Object_0;
    let k = es1[i].0;
    let child = diff_of(es1[i].1, es2[j].1, key_path(path, k));
    if x == i && y == j {
        lemma_lex_irrefl(k);
        let rest = diff_objects(a, b, x + 1, y + 1, path);
        assert(diff_objects(a, b, x, y, path) == diff_cat(child, rest));
        assert forall|p: Seq<char>| child.added.contains(p)
            implies diff_cat(child, rest).added.contains(p) by {
            lemma_seq_contains_head(child.added, rest.added, p);
        }
        assert forall|p: Seq<char>| child.removed.contains(p)
            implies diff_cat(child, rest).removed.contains(p) by {
            lemma_seq_contains_head(child.removed, rest.removed, p);
        }
        assert forall|p: Seq<char>| child.unchanged.contains(p)
            implies diff_cat(child, rest).unchanged.contains(p) by {
            lemma_seq_contains_head(child.unchanged, rest.unchanged, p);
        }
        assert forall|e: (Seq<char>, JsonModel, JsonModel)| child.modified.contains(e)
            implies diff_cat(child, rest).modified.contains(e) by {
            lemma_seq_contains_head(child.modified, rest.modified, e);
        }
    } else {
        // keys before the shared pair stay strictly below it on their side
        if es1[x].0 == es2[y].0 {
            if x == i {
                lemma_lex_asym(es2[y].0, es2[j].0);
            }
            if y == j {
                lemma_lex_asym(es1[x].0, es1[i].0);
            }
            assert(x < i && y < j);
            lemma_lex_irrefl(es1[x].0);
            lemma_shared_key_walk(a, b, x + 1, y + 1, i, j, path);
            let head = diff_of(es1[x].1, es2[y].1, key_path(path, es1[x].0));
            let rest = diff_objects(a, b, x + 1, y + 1, path);
            assert(diff_objects(a, b, x, y, path) == diff_cat(head, rest));
            lemma_contains_through_cat(head, rest, child);
        } else if lex_lt(es1[x].0, es2[y].0) {
            if x == i {
                // then k < es2[y].0 <= k, impossible
                if y < j {
                    lemma_lex_trans(k, es2[y].0, es2[j].0);
                    lemma_lex_irrefl(k);
                } else {
                    lemma_lex_asym(k, es2[y].0);
                }
            }
            assert(x < i);
            lemma_shared_key_walk(a, b, x + 1, y, i, j, path);
            let head = diff_one_removed(key_path(path, es1[x].0));
            let rest = diff_objects(a, b, x + 1, y, path);
            assert(diff_objects(a, b, x, y, path) == diff_cat(head, rest));
            lemma_contains_through_cat(head, rest, child);
        } else {
            lemma_lex_connex_or_gt(es1[x].0, es2[y].0);
            if y == j {
                if x < i {
                    lemma_lex_trans(k, es1[x].0, es1[i].0);
                    lemma_lex_irrefl(k);
                } else {
                    lemma_lex_asym(k, es1[x].0);
                }
            }
            assert(y < j);
            lemma_shared_key_walk(a, b, x, y + 1, i, j, path);
            let head = diff_one_added(key_path(path, es2[y].0));
            let rest = diff_objects(a, b, x, y + 1, path);
            assert(diff_objects(a, b, x, y, path) == diff_cat(head, rest));
            lemma_contains_through_cat(head, rest, child);
        }
    }
}

proof fn lemma_lex_connex_or_gt(u: Seq<char>, v: Seq<char>)
    requires
        u != v,
        !lex_lt(u, v),
    ensures
        lex_lt(v, u),
{
    if !lex_lt(v, u) {
        lemma_lex_connex(u, v);
    }
}

proof fn lemma_contains_through_cat(head: DiffModel, rest: DiffModel, child: DiffModel)
    requires
        forall|p: Seq<char>| child.added.contains(p) ==> rest.added.contains(p),
        forall|p: Seq<char>| child.removed.contains(p) ==> rest.removed.contains(p),
        forall|p: Seq<char>| child.unchanged.contains(p) ==> rest.unchanged.contains(p),
        forall|e: (Seq<char>, JsonModel, JsonModel)| child.modified.contains(e)
            ==> rest.modified.contains(e),
    ensures
        forall|p: Seq<char>| child.added.contains(p) ==> diff_cat(head, rest).added.contains(p),
        forall|p: Seq<char>| child.removed.contains(p)
            ==> diff_cat(head, rest).removed.contains(p),
        forall|p: Seq<char>| child.unchanged.contains(p)
            ==> diff_cat(head, rest).unchanged.contains(p),
        forall|e: (Seq<char>, JsonModel, JsonModel)| child.modified.contains(e)
            ==> diff_cat(head, rest).modified.contains(e),
{
    assert forall|p: Seq<char>| child.added.contains(p)
        implies diff_cat(head, rest).added.contains(p) by {
        lemma_seq_contains_head(head.added, rest.added, p);
    }
    assert forall|p: Seq<char>| child.removed.contains(p)
        implies diff_cat(head, rest).removed.contains(p) by {
        lemma_seq_contains_head(head.removed, rest.removed, p);
    }
    assert forall|p: Seq<char>| child.unchanged.contains(p)
        implies diff_cat(head, rest).unchanged.contains(p) by {
        lemma_seq_contains_head(head.unchanged, rest.unchanged, p);
    }
    assert forall|e: (Seq<char>, JsonModel, JsonModel)| child.modified.contains(e)
        implies diff_cat(head, rest).modified.contains(e) by {
        lemma_seq_contains_head(head.modified, rest.modified, e);
    }
}

/// A member key both objects hold is compared recursively at the member's
/// path: with the keys of each side strictly sorted, as the parser leaves
/// them, everything the sub-comparison yields surfaces in the result.
pub proof fn lemma_shared_key_compared(a: JsonModel, b: JsonModel, path: Seq<char>, i: int,
    j: int)
    requires
        a is Object,
        b is Object,
        crate::value::sorted_keys(a->Object_0),
        crate::value::sorted_keys(b->Object_0),
        0 <= i < a->Object_0.len(),
        0 <= j < b->Object_0.len(),
        a->Object_0[i].0 == b->Object_0[j].0,
    ensures
        ({
            let child = diff_of(a->Object_0[i].1, b->Object_0[j].1,
                key_path(path, a->Object_0[i].0));
            let whole = diff_of(a, b, path);
            &&& forall|p: Seq<char>| child.added.contains(p) ==> whole.added.contains(p)
            &&& forall|p: Seq<char>| child.removed.contains(p) ==> whole.removed.contains(p)
            &&& forall|p: Seq<char>| child.unchanged.contains(p) ==> whole.unchanged.contains(p)
            &&& forall|e: (Seq<char>, JsonModel, JsonModel)| child.modified.contains(e)
                ==> whole.modified.contains(e)
        }),
{
    lemma_shared_key_walk(a, b, 0, 0, i, j, path);
}

/// Each replaced entry of the reversed comparison, with its two snapshots
/// swapped back.
pub open spec fn swap_mods(s: Seq<(Seq<char>, JsonModel, JsonModel)>)
    -> Seq<(Seq<char>, JsonModel, JsonModel)> {
    s.map_values(|t: (Seq<char>, JsonModel, JsonModel)| (t.0, t.2, t.1))
}

/// A comparison read backwards: additions become removals and vice versa,
/// replacements swap their sides, unchanged positions stay.
pub open spec fn diff_flip(d: DiffModel) -> DiffModel {
    DiffModel {
        added: d.removed,
        removed: d.added,
        modified: swap_mods(d.modified),
        unchanged: d.unchanged,
    }
}

proof fn lemma_flip_cat(x: DiffModel, y: DiffModel)
    ensures
        diff_flip(diff_cat(x, y)) == diff_cat(diff_flip(x), diff_flip(y)),
{
    assert(swap_mods(x.modified + y.modified)
        =~= swap_mods(x.modified) + swap_mods(y.modified));
    assert(diff_flip(diff_cat(x, y)) =~~= diff_cat(diff_flip(x), diff_flip(y)));
}

/// Swapping the two inputs swaps added with removed, swaps the two sides of
/// every replacement, and keeps the unchanged paths, entry for entry.
pub proof fn lemma_diff_symmetric(a: JsonModel, b: JsonModel, path: Seq<char>)
    ensures
        diff_of(a, b, path).added == diff_of(b, a, path).removed,
        diff_of(a, b, path).removed == diff_of(b, a, path).added,
        diff_of(a, b, path).unchanged == diff_of(b, a, path).unchanged,
        diff_of(a, b, path).modified == swap_mods(diff_of(b, a, path).modified),
    decreases a, b, budget(a) + budget(b) + 1,
{
    if a is Object && b is Object {
        lemma_sym_obj(a, b, 0, 0, path);
    } else if a is Array && b is Array {
        lemma_sym_arr(a, b, 0, path);
    } else if a == b {
        assert(diff_of(a, b, path) =~~= diff_flip(diff_of(b, a, path)));
    } else {
        assert(swap_mods(seq![(path, b, a)]) =~= seq![(path, a, b)]);
        assert(diff_of(a, b, path) =~~= diff_flip(diff_of(b, a, path)));
    }
}

proof fn lemma_sym_obj(a: JsonModel, b: JsonModel, i: int, j: int, path: Seq<char>)
    requires
        a is Object,
        b is Object,
        0 <= i,
        0 <= j,
    ensures
        diff_objects(a, b, i, j, path) == diff_flip(diff_objects(b, a, j, i, path)),
    decreases a, b,
        (if i <= a->Object_0.len() { a->Object_0.len() - i } else { 0 })
        + (if j <= b->Object_0.len() { b->Object_0.len() - j } else { 0 }),
{
    let es1 = a->Object_0;
    let es2 = b->Object_0;
    if i >= es1.len() && j >= es2.len() {
        assert(diff_objects(a, b, i, j, path) =~~= diff_flip(diff_objects(b, a, j, i, path)));
    } else if j >= es2.len() || (i < es1.len() && lex_lt(es1[i].0, es2[j].0)) {
        if i < es1.len() && j < es2.len() {
            lemma_lex_asym(es1[i].0, es2[j].0);
        }
        lemma_sym_obj(a, b, i + 1, j, path);
        lemma_flip_cat(diff_one_added(key_path(path, es1[i].0)),
            diff_objects(b, a, j, i + 1, path));
        assert(diff_flip(diff_one_added(key_path(path, es1[i].0)))
            =~~= diff_one_removed(key_path(path, es1[i].0)));
        assert(diff_objects(a, b, i, j, path) =~~= diff_flip(diff_objects(b, a, j, i, path)));
    } else if i >= es1.len() || lex_lt(es2[j].0, es1[i].0) {
        if i < es1.len() && j < es2.len() {
            lemma_lex_asym(es2[j].0, es1[i].0);
        }
        lemma_sym_obj(a, b, i, j + 1, path);
        lemma_flip_cat(diff_one_removed(key_path(path, es2[j].0)),
            diff_objects(b, a, j + 1, i, path));
        assert(diff_flip(diff_one_removed(key_path(path, es2[j].0)))
            =~~= diff_one_added(key_path(path, es2[j].0)));
        assert(diff_objects(a, b, i, j, path) =~~= diff_flip(diff_objects(b, a, j, i, path)));
    } else {
        lemma_lex_connex(es1[i].0, es2[j].0);
        lemma_diff_symmetric(es1[i].1, es2[j].1, key_path(path, es1[i].0));
        lemma_sym_obj(a, b, i + 1, j + 1, path);
        lemma_flip_cat(diff_of(es2[j].1, es1[i].1, key_path(path, es2[j].0)),
            diff_objects(b, a, j + 1, i + 1, path));
        assert(diff_of(es1[i].1, es2[j].1, key_path(path, es1[i].0))
            =~~= diff_flip(diff_of(es2[j].1, es1[i].1, key_path(path, es2[j].0))));
        assert(diff_objects(a, b, i, j, path) =~~= diff_flip(diff_objects(b, a, j, i, path)));
    }
}

proof fn lemma_sym_arr(a: JsonModel, b: JsonModel, k: int, path: Seq<char>)
    requires
        a is Array,
        b is Array,
        0 <= k,
    ensures
        diff_arrays(a, b, k, path) == diff_flip(diff_arrays(b, a, k, path)),
    decreases a, b,
        (if a->Array_0.len() > b->Array_0.len() { a->Array_0.len() } else { b->Array_0.len() })
            - k,
{
    let s1 = a->Array_0;
    let s2 = b->Array_0;
    let n: int = if s1.len() > s2.len() { s1.len() as int } else { s2.len() as int };
    if k >= n {
        assert(diff_arrays(a, b, k, path) =~~= diff_flip(diff_arrays(b, a, k, path)));
    } else {
        lemma_sym_arr(a, b, k + 1, path);
        let p = index_path(path, k as nat);
        if k < s1.len() && k < s2.len() {
            lemma_diff_symmetric(s1[k], s2[k], p);
            lemma_flip_cat(diff_of(s2[k], s1[k], p), diff_arrays(b, a, k + 1, path));
            assert(diff_of(s1[k], s2[k], p) =~~= diff_flip(diff_of(s2[k], s1[k], p)));
        } else if k >= s1.len() {
            lemma_flip_cat(diff_one_removed(p), diff_arrays(b, a, k + 1, path));
            assert(diff_one_added(p) =~~= diff_flip(diff_one_removed(p)));
        } else {
            lemma_flip_cat(diff_one_added(p), diff_arrays(b, a, k + 1, path));
            assert(diff_one_removed(p) =~~= diff_flip(diff_one_added(p)));
        }
        assert(diff_arrays(a, b, k, path) =~~= diff_flip(diff_arrays(b, a, k, path)));
    }
}

} // verus!
