use vstd::prelude::*;
use crate::strutil::{dec_digits, usize_to_string, concat_str};

verus! {

#[derive(Debug)]
pub struct PdfMergeResult {
    pub output_path: String,
    pub page_count: usize,
}

#[derive(Debug)]
pub struct PdfSplitResult {
    pub output_files: Vec<String>,
}

pub open spec fn sum_of(s: Seq<usize>) -> int
    decreases s.len(),
{
    if s.len() == 0 {
        0
    } else {
        sum_of(s.subrange(0, s.len() - 1)) + s[s.len() - 1]
    }
}

/// The merge report for documents with the given page counts: at least one
/// document is required, and the merged page count is their sum.
pub fn plan_merge(page_counts: &Vec<usize>, output_path: String)
    -> (r: Result<PdfMergeResult, String>)
    ensures
        r is Ok <==> (page_counts@.len() > 0 && sum_of(page_counts@) <= usize::MAX),
        r matches Ok(m) ==> m.page_count == sum_of(page_counts@)
            && m.output_path == output_path,
{
    if page_counts.len() == 0 {
        return Err(String::from_str("至少需要一个PDF文件"));
    }
    let mut total: usize = 0;
    let mut i: usize = 0;
    while i < page_counts.len()
        invariant
            0 <= i <= page_counts@.len(),
            total == sum_of(page_counts@.subrange(0, i as int)),
        decreases page_counts.len() - i,
    {
        let ghost pre = page_counts@.subrange(0, i as int);
        let ghost post = page_counts@.subrange(0, i as int + 1);
        proof {
            assert(post.subrange(0, post.len() - 1) =~= pre);
            lemma_sum_prefix(page_counts@, i as int);
        }
        total = match total.checked_add(page_counts[i]) {
            Some(t) => t,
            None => {
                return Err(String::from_str("页数总和过大"));
            },
        };
        i = i + 1;
    }
    proof {
        assert(page_counts@.subrange(0, page_counts@.len() as int) =~= page_counts@);
    }
    Ok(PdfMergeResult { output_path, page_count: total })
}

proof fn lemma_sum_prefix(s: Seq<usize>, i: int)
    requires
        0 <= i < s.len(),
    ensures
        sum_of(s) >= sum_of(s.subrange(0, i)) + s[i],
    decreases s.len(),
{
    if i == s.len() - 1 {
        assert(s.subrange(0, s.len() - 1) =~= s.subrange(0, i));
    } else {
        lemma_sum_prefix(s.subrange(0, s.len() - 1), i);
        assert(s.subrange(0, s.len() - 1).subrange(0, i) =~= s.subrange(0, i));
        assert(s.subrange(0, s.len() - 1)[i] == s[i]);
    }
}

/// The output name of one chunk: the source stem with the one-based page
/// range of the chunk, under the source's directory.
pub open spec fn chunk_name(parent: Seq<char>, stem: Seq<char>, start: nat, end: nat)
    -> Seq<char> {
    parent + "/"@ + stem + "_pages_"@ + dec_digits(start + 1) + "_to_"@ + dec_digits(end)
        + ".pdf"@
}

/// The chunk names from page `start` on, each chunk `per` pages, the last
/// one clipped at the page total.
pub open spec fn chunk_names(parent: Seq<char>, stem: Seq<char>, total: nat, per: nat,
    start: nat) -> Seq<Seq<char>>
    decreases total - start,
    when per > 0
{
    if start >= total {
        Seq::empty()
    } else {
        let end: nat = if start + per > total { total } else { start + per };
        seq![chunk_name(parent, stem, start, end)]
            + chunk_names(parent, stem, total, per, end)
    }
}

/// The split plan for a document: one output name per chunk of `per` pages
/// (ten when unspecified). An empty document is refused.
pub fn plan_split(parent: &str, stem: &str, total_pages: usize, pages_per_file: Option<usize>)
    -> (r: Result<PdfSplitResult, String>)
    requires
        pages_per_file matches Some(p) ==> p > 0,
    ensures
        r is Ok <==> total_pages > 0,
        r matches Ok(s) ==> s.output_files@.map_values(|x: String| x@) == chunk_names(
            parent@, stem@, total_pages as nat,
            (match pages_per_file { Some(p) => p as nat, None => 10 }), 0),
{
    let per = match pages_per_file {
        Some(p) => p,
        None => 10,
    };
    if total_pages == 0 {
        return Err(String::from_str("PDF文件没有页面"));
    }
    let mut out: Vec<String> = Vec::new();
    let mut start: usize = 0;
    while start < total_pages
        invariant
            0 <= start <= total_pages,
            per > 0,
            out@.map_values(|x: String| x@)
                + chunk_names(parent@, stem@, total_pages as nat, per as nat, start as nat)
                =~= chunk_names(parent@, stem@, total_pages as nat, per as nat, 0),
        decreases total_pages - start,
    {
        let end = if per >= total_pages - start { total_pages } else { start + per };
        let mut name = concat_str(parent, "/");
        name.append(stem);
        name.append("_pages_");
        let from_digits = usize_to_string(start + 1);
        name.append(from_digits.as_str());
        name.append("_to_");
        let to_digits = usize_to_string(end);
        name.append(to_digits.as_str());
        name.append(".pdf");
        proof {
            assert(name@ =~= chunk_name(parent@, stem@, start as nat, end as nat));
        }
        out.push(name);
        proof {
            assert(out@.map_values(|x: String| x@)
                + chunk_names(parent@, stem@, total_pages as nat, per as nat, end as nat)
                =~= chunk_names(parent@, stem@, total_pages as nat, per as nat, 0));
        }
        start = end;
    }
    Ok(PdfSplitResult { output_files: out })
}

} // verus!
