use vstd::prelude::*;
use crate::strutil::{lex_lt, lemma_lex_connex, lemma_lex_trans, str_lt, str_eq};

verus! {

/// One directory entry, as a listing reports it.
#[derive(Debug)]
pub struct FileInfo {
    pub name: String,
    pub path: String,
    pub size: u64,
    pub is_file: bool,
    pub modified: Option<String>,
}

/// The listing order: directories before files, and names ascending within
/// each group.
pub open spec fn file_le(a: FileInfo, b: FileInfo) -> bool {
    if a.is_file != b.is_file {
        !a.is_file
    } else {
        lex_lt(a.name@, b.name@) || a.name@ == b.name@
    }
}

fn file_le_exec(a: &FileInfo, b: &FileInfo) -> (r: bool)
    ensures
        r == file_le(*a, *b),
{
    if a.is_file != b.is_file {
        !a.is_file
    } else {
        str_lt(a.name.as_str(), b.name.as_str()) || str_eq(a.name.as_str(), b.name.as_str())
    }
}

proof fn lemma_file_le_total(a: FileInfo, b: FileInfo)
    ensures
        file_le(a, b) || file_le(b, a),
{
    if a.is_file == b.is_file && !lex_lt(a.name@, b.name@) && !lex_lt(b.name@, a.name@) {
        lemma_lex_connex(a.name@, b.name@);
    }
}

proof fn lemma_file_le_trans(a: FileInfo, b: FileInfo, c: FileInfo)
    requires
        file_le(a, b),
        file_le(b, c),
    ensures
        file_le(a, c),
{
    if a.is_file == b.is_file && b.is_file == c.is_file {
        if lex_lt(a.name@, b.name@) && lex_lt(b.name@, c.name@) {
            lemma_lex_trans(a.name@, b.name@, c.name@);
        }
    }
}

/// Sorts a directory listing: directories first, then by name, the same
/// arrangement the listing presents.
#[verifier::loop_isolation(false)]
pub fn sort_file_infos(files: Vec<FileInfo>) -> (r: Vec<FileInfo>)
    ensures
        r@.to_multiset() == files@.to_multiset(),
        r@.len() == files@.len(),
        forall|i: int, j: int| 0 <= i < j < r@.len() ==> file_le(r@[i], r@[j]),
{
    broadcast use vstd::seq_lib::group_to_multiset_ensures;

    let mut rest = files;
    let ghost all = rest@.to_multiset();
    let mut out: Vec<FileInfo> = Vec::new();
    proof {
        assert(out@.to_multiset().add(rest@.to_multiset()) =~= all);
    }
    while rest.len() > 0
        invariant
            out@.to_multiset().add(rest@.to_multiset()) == all,
            out@.len() + rest@.len() == files@.len(),
            forall|i: int, j: int| 0 <= i < j < out@.len() ==> file_le(out@[i], out@[j]),
            forall|i: int, k: int| 0 <= i < out@.len() && 0 <= k < rest@.len()
                ==> file_le(out@[i], rest@[k]),
        decreases rest.len(),
    {
        let mut m: usize = 0;
        let mut k: usize = 1;
        while k < rest.len()
            invariant
                0 <= m < rest@.len(),
                m < k <= rest@.len(),
                forall|t: int| 0 <= t < k ==> file_le(rest@[m as int], rest@[t]),
            decreases rest.len() - k,
        {
            if !file_le_exec(&rest[m], &rest[k]) {
                proof {
                    lemma_file_le_total(rest@[m as int], rest@[k as int]);
                    assert forall|t: int| 0 <= t < k + 1
                        implies file_le(rest@[k as int], rest@[t]) by {
                        if t < k {
                            lemma_file_le_trans(rest@[k as int], rest@[m as int], rest@[t]);
                        } else {
                            lemma_file_le_total(rest@[k as int], rest@[k as int]);
                        }
                    }
                }
                m = k;
            }
            k = k + 1;
        }
        let ghost rest_pre = rest@;
        let ghost out_pre = out@;
        let x = rest.remove(m);
        out.push(x);
        proof {
            assert(out@.to_multiset() =~= out_pre.to_multiset().insert(rest_pre[m as int]));
            assert(rest@.to_multiset() =~= rest_pre.to_multiset().remove(rest_pre[m as int]));
            assert(out@.to_multiset().add(rest@.to_multiset()) =~= all);
            assert(forall|t: int| 0 <= t < rest@.len() ==> #[trigger] rest@[t] == (
                if t < m { rest_pre[t] } else { rest_pre[t + 1] }));
        }
    }
    out
}

} // verus!
