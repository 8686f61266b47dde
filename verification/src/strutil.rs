use vstd::prelude::*;

verus! {

/// Lexicographic order on character sequences, by code point; this is the
/// order in which a JSON parser's ordered map hands object keys out.
pub open spec fn lex_lt(a: Seq<char>, b: Seq<char>) -> bool
    decreases a.len(),
{
    if b.len() == 0 {
        false
    } else if a.len() == 0 {
        true
    } else if a[0] != b[0] {
        (a[0] as u32) < (b[0] as u32)
    } else {
        lex_lt(a.subrange(1, a.len() as int), b.subrange(1, b.len() as int))
    }
}

pub proof fn lemma_lex_irrefl(a: Seq<char>)
    ensures
        !lex_lt(a, a),
    decreases a.len(),
{
    if a.len() > 0 {
        lemma_lex_irrefl(a.subrange(1, a.len() as int));
    }
}

pub proof fn lemma_lex_asym(a: Seq<char>, b: Seq<char>)
    requires
        lex_lt(a, b),
    ensures
        !lex_lt(b, a),
        a != b,
    decreases a.len(),
{
    if a.len() > 0 && b.len() > 0 && a[0] == b[0] {
        lemma_lex_asym(a.subrange(1, a.len() as int), b.subrange(1, b.len() as int));
        assert(a != b) by {
            if a =~= b {
                assert(a.subrange(1, a.len() as int) =~= b.subrange(1, b.len() as int));
            }
        }
    }
}

/// Two characters with one code point are one character.
proof fn lemma_char_code_injective(c: char, d: char)
    requires
        (c as u32) == (d as u32),
    ensures
        c == d,
{
}

pub proof fn lemma_lex_connex(a: Seq<char>, b: Seq<char>)
    requires
        !lex_lt(a, b),
        !lex_lt(b, a),
    ensures
        a == b,
    decreases a.len(),
{
    if a.len() == 0 || b.len() == 0 {
        assert(a =~= b);
    } else if a[0] != b[0] {
        lemma_char_code_injective(a[0], b[0]);
    } else {
        lemma_lex_connex(a.subrange(1, a.len() as int), b.subrange(1, b.len() as int));
        assert(a =~= seq![a[0]] + a.subrange(1, a.len() as int));
        assert(b =~= seq![b[0]] + b.subrange(1, b.len() as int));
    }
}

pub proof fn lemma_lex_trans(a: Seq<char>, b: Seq<char>, c: Seq<char>)
    requires
        lex_lt(a, b),
        lex_lt(b, c),
    ensures
        lex_lt(a, c),
    decreases a.len() + b.len() + c.len(),
{
    if b.len() == 0 || c.len() == 0 {
        // lex_lt(b, c) forces c nonempty, and lex_lt(a, b) forces b nonempty
    } else if a.len() == 0 {
    } else {
        if a[0] == b[0] && b[0] == c[0] {
            lemma_lex_trans(
                a.subrange(1, a.len() as int),
                b.subrange(1, b.len() as int),
                c.subrange(1, c.len() as int),
            );
        } else if a[0] != c[0] {
            // head comparison decides; the code points are ordered through b's head
        } else {
            // a[0] == c[0]: both strict head steps cannot come back to the start
            lemma_char_code_injective(a[0], c[0]);
            if a[0] != b[0] && b[0] != c[0] {
                assert((a[0] as u32) < (b[0] as u32) && (b[0] as u32) < (c[0] as u32));
                assert(false);
            } else if a[0] != b[0] {
                assert(false);
            } else {
                assert(false);
            }
        }
    }
}

/// Decides `lex_lt` on two string slices.
pub fn str_lt(a: &str, b: &str) -> (r: bool)
    ensures
        r == lex_lt(a@, b@),
{
    let alen = a.unicode_len();
    let blen = b.unicode_len();
    let mut i: usize = 0;
    proof {
        assert(a@.subrange(0, alen as int) =~= a@);
        assert(b@.subrange(0, blen as int) =~= b@);
    }
    loop
        invariant
            0 <= i <= alen,
            i <= blen,
            alen == a@.len(),
            blen == b@.len(),
            lex_lt(a@, b@) == lex_lt(
                a@.subrange(i as int, alen as int),
                b@.subrange(i as int, blen as int),
            ),
        decreases alen - i,
    {
        if i >= blen {
            return false;
        }
        if i >= alen {
            return true;
        }
        let ca = a.get_char(i);
        let cb = b.get_char(i);
        if ca != cb {
            return (ca as u32) < (cb as u32);
        }
        proof {
            let sa = a@.subrange(i as int, alen as int);
            let sb = b@.subrange(i as int, blen as int);
            assert(sa.subrange(1, sa.len() as int)
                =~= a@.subrange(i + 1, alen as int));
            assert(sb.subrange(1, sb.len() as int)
                =~= b@.subrange(i + 1, blen as int));
        }
        i = i + 1;
    }
}

/// Joins two string slices into a fresh string.
pub fn concat_str(a: &str, b: &str) -> (r: String)
    ensures
        r@ == a@ + b@,
{
    let mut r = String::from_str(a);
    r.append(b);
    r
}

/// Relies on String::push: it appends exactly the one character.
#[verifier::external_body]
pub(crate) fn push_char(s: &mut String, c: char)
    ensures
        final(s)@ == old(s)@.push(c),
{
    s.push(c);
}

/// Replacement of every non-overlapping occurrence of `from`, scanned from
/// the left, exactly as the standard library's str::replace does it.
pub open spec fn replace_seq(s: Seq<char>, from: Seq<char>, to: Seq<char>) -> Seq<char>
    decreases s.len(),
    when from.len() > 0
{
    if s.len() < from.len() {
        s
    } else if s.subrange(0, from.len() as int) == from {
        to + replace_seq(s.subrange(from.len() as int, s.len() as int), from, to)
    } else {
        seq![s[0]] + replace_seq(s.subrange(1, s.len() as int), from, to)
    }
}

/// Whether `from` occurs in `s` at position `i`.
fn match_at(s: &str, slen: usize, from: &str, flen: usize, i: usize) -> (r: bool)
    requires
        slen == s@.len(),
        flen == from@.len(),
        i + flen <= slen,
    ensures
        r == (s@.subrange(i as int, i + flen) == from@),
{
    let mut j: usize = 0;
    while j < flen
        invariant
            0 <= j <= flen,
            i + flen <= slen,
            slen == s@.len(),
            flen == from@.len(),
            forall|k: int| 0 <= k < j ==> s@[i + k] == from@[k],
        decreases flen - j,
    {
        if s.get_char(i + j) != from.get_char(j) {
            proof {
                assert(s@.subrange(i as int, i + flen)[j as int] != from@[j as int]);
            }
            return false;
        }
        j = j + 1;
    }
    proof {
        assert(s@.subrange(i as int, i + flen) =~= from@);
    }
    true
}

/// str::replace, verified: scans left to right and replaces each
/// non-overlapping occurrence.
pub fn replace_str(s: &str, from: &str, to: &str) -> (r: String)
    requires
        from@.len() >= 1,
    ensures
        r@ == replace_seq(s@, from@, to@),
{
    let slen = s.unicode_len();
    let flen = from.unicode_len();
    let mut out = String::new();
    let mut i: usize = 0;
    proof {
        assert(s@.subrange(0, slen as int) =~= s@);
    }
    while i < slen
        invariant
            0 <= i <= slen,
            slen == s@.len(),
            flen == from@.len(),
            flen >= 1,
            out@ + replace_seq(s@.subrange(i as int, slen as int), from@, to@)
                == replace_seq(s@, from@, to@),
        decreases slen - i,
    {
        let ghost tail = s@.subrange(i as int, slen as int);
        let fits = flen <= slen && i <= slen - flen;
        if fits && match_at(s, slen, from, flen, i) {
            out.append(to);
            proof {
                assert(tail.subrange(0, flen as int) =~= s@.subrange(i as int, i + flen));
                assert(tail.subrange(flen as int, tail.len() as int)
                    =~= s@.subrange(i + flen, slen as int));
                assert(replace_seq(tail, from@, to@) == to@ + replace_seq(
                    s@.subrange(i + flen, slen as int), from@, to@));
            }
            i = i + flen;
        } else {
            push_char(&mut out, s.get_char(i));
            proof {
                assert(tail.subrange(1, tail.len() as int)
                    =~= s@.subrange(i + 1, slen as int));
                if i + flen <= slen {
                    assert(tail.subrange(0, flen as int)
                        =~= s@.subrange(i as int, i + flen));
                    assert(replace_seq(tail, from@, to@) == seq![s@[i as int]] + replace_seq(
                        s@.subrange(i + 1, slen as int), from@, to@));
                } else {
                    assert(tail.len() < flen);
                    assert(replace_seq(tail, from@, to@) == tail);
                    assert(s@.subrange(i + 1, slen as int).len() < flen);
                    assert(replace_seq(s@.subrange(i + 1, slen as int), from@, to@)
                        == s@.subrange(i + 1, slen as int));
                    assert(tail =~= seq![s@[i as int]] + s@.subrange(i + 1, slen as int));
                }
                assert(out@ + replace_seq(s@.subrange(i + 1, slen as int), from@, to@)
                    =~= replace_seq(s@, from@, to@));
            }
            i = i + 1;
        }
    }
    proof {
        assert(s@.subrange(slen as int, slen as int) =~= Seq::<char>::empty());
        assert(replace_seq(Seq::<char>::empty(), from@, to@)
            == Seq::<char>::empty());
        assert(out@ =~= replace_seq(s@, from@, to@));
    }
    out
}

/// The characters the standard library's trim removes: the Unicode
/// White_Space set.
pub open spec fn is_space_char(c: char) -> bool {
    let u = c as u32;
    (9 <= u && u <= 13) || u == 32 || u == 0x85 || u == 0xA0 || u == 0x1680
        || (0x2000 <= u && u <= 0x200A) || u == 0x2028 || u == 0x2029 || u == 0x202F
        || u == 0x205F || u == 0x3000
}

pub fn is_space(c: char) -> (r: bool)
    ensures
        r == is_space_char(c),
{
    let u = c as u32;
    (9 <= u && u <= 13) || u == 32 || u == 0x85 || u == 0xA0 || u == 0x1680
        || (0x2000 <= u && u <= 0x200A) || u == 0x2028 || u == 0x2029 || u == 0x202F
        || u == 0x205F || u == 0x3000
}

pub open spec fn trim_start_spec(s: Seq<char>) -> Seq<char>
    decreases s.len(),
{
    if s.len() > 0 && is_space_char(s[0]) {
        trim_start_spec(s.subrange(1, s.len() as int))
    } else {
        s
    }
}

pub open spec fn trim_end_spec(s: Seq<char>) -> Seq<char>
    decreases s.len(),
{
    if s.len() > 0 && is_space_char(s[s.len() - 1]) {
        trim_end_spec(s.subrange(0, s.len() - 1))
    } else {
        s
    }
}

/// What the standard library's str::trim leaves: the text without leading
/// and trailing white space.
pub open spec fn trim_spec(s: Seq<char>) -> Seq<char> {
    trim_end_spec(trim_start_spec(s))
}

proof fn lemma_trim_start_at(s: Seq<char>, lo: int)
    requires
        0 <= lo <= s.len(),
        forall|k: int| 0 <= k < lo ==> is_space_char(s[k]),
        lo == s.len() || !is_space_char(s[lo]),
    ensures
        trim_start_spec(s) == s.subrange(lo, s.len() as int),
    decreases lo,
{
    if lo == 0 {
        assert(s.subrange(0, s.len() as int) =~= s);
    } else {
        let t = s.subrange(1, s.len() as int);
        assert(forall|k: int| 0 <= k < lo - 1 ==> is_space_char(#[trigger] t[k]));
        lemma_trim_start_at(t, lo - 1);
        assert(t.subrange(lo - 1, t.len() as int) =~= s.subrange(lo, s.len() as int));
    }
}

proof fn lemma_trim_end_at(s: Seq<char>, hi: int)
    requires
        0 <= hi <= s.len(),
        forall|k: int| hi <= k < s.len() ==> is_space_char(s[k]),
        hi == 0 || !is_space_char(s[hi - 1]),
    ensures
        trim_end_spec(s) == s.subrange(0, hi),
    decreases s.len(),
{
    if hi == s.len() {
        assert(s.subrange(0, hi) =~= s);
    } else {
        let t = s.subrange(0, s.len() - 1);
        assert(forall|k: int| hi <= k < t.len() ==> is_space_char(#[trigger] t[k]));
        lemma_trim_end_at(t, hi);
        assert(t.subrange(0, hi) =~= s.subrange(0, hi));
    }
}

/// str::trim, verified: a fresh string without the surrounding white space.
pub fn trim_str(s: &str) -> (r: String)
    ensures
        r@ == trim_spec(s@),
{
    let n = s.unicode_len();
    let mut lo: usize = 0;
    while lo < n && is_space(s.get_char(lo))
        invariant
            0 <= lo <= n,
            n == s@.len(),
            forall|k: int| 0 <= k < lo ==> is_space_char(s@[k]),
        decreases n - lo,
    {
        lo = lo + 1;
    }
    let mut hi: usize = n;
    while hi > lo && is_space(s.get_char(hi - 1))
        invariant
            lo <= hi <= n,
            n == s@.len(),
            forall|k: int| hi <= k < n ==> is_space_char(s@[k]),
        decreases hi,
    {
        hi = hi - 1;
    }
    proof {
        lemma_trim_start_at(s@, lo as int);
        let t = s@.subrange(lo as int, n as int);
        assert(forall|k: int| hi - lo <= k < t.len() ==> is_space_char(#[trigger] t[k]));
        lemma_trim_end_at(t, hi - lo);
        assert(trim_spec(s@) == t.subrange(0, hi - lo));
    }
    let mut out = String::new();
    let mut i: usize = lo;
    while i < hi
        invariant
            lo <= i <= hi <= n,
            n == s@.len(),
            out@ =~= s@.subrange(lo as int, i as int),
        decreases hi - i,
    {
        push_char(&mut out, s.get_char(i));
        i = i + 1;
    }
    proof {
        assert(out@ =~= s@.subrange(lo as int, n as int).subrange(0, hi - lo));
    }
    out
}

/// str::trim_start, verified.
pub fn trim_start_str(s: &str) -> (r: String)
    ensures
        r@ == trim_start_spec(s@),
{
    let n = s.unicode_len();
    let mut lo: usize = 0;
    while lo < n && is_space(s.get_char(lo))
        invariant
            0 <= lo <= n,
            n == s@.len(),
            forall|k: int| 0 <= k < lo ==> is_space_char(s@[k]),
        decreases n - lo,
    {
        lo = lo + 1;
    }
    proof {
        lemma_trim_start_at(s@, lo as int);
    }
    let mut out = String::new();
    let mut i: usize = lo;
    while i < n
        invariant
            lo <= i <= n,
            n == s@.len(),
            out@ =~= s@.subrange(lo as int, i as int),
        decreases n - i,
    {
        push_char(&mut out, s.get_char(i));
        i = i + 1;
    }
    out
}

/// The text repeated n times over.
pub open spec fn repeat_seq(s: Seq<char>, n: nat) -> Seq<char>
    decreases n,
{
    if n == 0 {
        Seq::empty()
    } else {
        repeat_seq(s, (n - 1) as nat) + s
    }
}

/// str::repeat, verified.
pub fn repeat_str(s: &str, n: usize) -> (r: String)
    ensures
        r@ == repeat_seq(s@, n as nat),
{
    let mut out = String::new();
    let mut i: usize = 0;
    while i < n
        invariant
            0 <= i <= n,
            out@ =~= repeat_seq(s@, i as nat),
        decreases n - i,
    {
        out.append(s);
        i = i + 1;
    }
    out
}

/// Decides equality of two string slices.
pub fn str_eq(a: &str, b: &str) -> (r: bool)
    ensures
        r == (a@ == b@),
{
    let alen = a.unicode_len();
    let blen = b.unicode_len();
    if alen != blen {
        return false;
    }
    let r = match_at(a, alen, b, blen, 0);
    proof {
        assert(a@.subrange(0, alen as int) =~= a@);
    }
    r
}

/// Whether the text begins with the given prefix.
pub fn starts_with_str(s: &str, prefix: &str) -> (r: bool)
    ensures
        r == (s@.len() >= prefix@.len()
            && s@.subrange(0, prefix@.len() as int) == prefix@),
{
    let slen = s.unicode_len();
    let plen = prefix.unicode_len();
    if plen > slen {
        return false;
    }
    match_at(s, slen, prefix, plen, 0)
}

/// Whether the text's first character is the given one.
pub fn first_char_is(s: &str, c: char) -> (r: bool)
    ensures
        r == (s@.len() > 0 && s@[0] == c),
{
    if s.unicode_len() == 0 {
        false
    } else {
        s.get_char(0) == c
    }
}

/// Whether the text's last character is the given one.
pub fn last_char_is(s: &str, c: char) -> (r: bool)
    ensures
        r == (s@.len() > 0 && s@[s@.len() - 1] == c),
{
    let n = s.unicode_len();
    if n == 0 {
        false
    } else {
        s.get_char(n - 1) == c
    }
}

/// Whether the text holds the given character anywhere.
pub fn contains_char(s: &str, c: char) -> (r: bool)
    ensures
        r == s@.contains(c),
{
    let n = s.unicode_len();
    let mut i: usize = 0;
    while i < n
        invariant
            0 <= i <= n,
            n == s@.len(),
            forall|k: int| 0 <= k < i ==> s@[k] != c,
        decreases n - i,
    {
        if s.get_char(i) == c {
            proof {
                assert(s@[i as int] == c);
            }
            return true;
        }
        i = i + 1;
    }
    proof {
        assert(!s@.contains(c)) by {
            if s@.contains(c) {
                let k = choose|k: int| 0 <= k < s@.len() && s@[k] == c;
                assert(s@[k] != c);
            }
        }
    }
    false
}

/// The index of the first newline, or the length when there is none.
pub open spec fn first_nl(s: Seq<char>) -> int
    decreases s.len(),
{
    if s.len() == 0 {
        0
    } else if s[0] == '\n' {
        0
    } else {
        1 + first_nl(s.subrange(1, s.len() as int))
    }
}

proof fn lemma_first_nl_at(s: Seq<char>, j: int)
    requires
        0 <= j <= s.len(),
        forall|k: int| 0 <= k < j ==> s[k] != '\n',
        j == s.len() || s[j] == '\n',
    ensures
        first_nl(s) == j,
    decreases j,
{
    if j > 0 {
        let t = s.subrange(1, s.len() as int);
        assert(forall|k: int| 0 <= k < j - 1 ==> #[trigger] t[k] != '\n');
        lemma_first_nl_at(t, j - 1);
    }
}

/// A newline-terminated line as the standard library returns it: without
/// one carriage return at its end, if there is one.
pub open spec fn strip_cr(line: Seq<char>) -> Seq<char> {
    if line.len() > 0 && line[line.len() - 1] == '\r' {
        line.subrange(0, line.len() - 1)
    } else {
        line
    }
}

/// What str::lines yields: pieces split at newlines, each split-off piece
/// without a carriage return before its newline, no empty piece after a
/// final newline, and a last unterminated piece kept verbatim.
pub open spec fn lines_spec(s: Seq<char>) -> Seq<Seq<char>>
    decreases s.len(),
{
    if s.len() == 0 {
        Seq::empty()
    } else {
        let k = first_nl(s);
        if 0 <= k && k < s.len() {
            seq![strip_cr(s.subrange(0, k))] + lines_spec(s.subrange(k + 1, s.len() as int))
        } else {
            seq![s]
        }
    }
}

/// str::lines, verified: the lines of the text, in order.
pub fn lines_vec(s: &str) -> (r: Vec<String>)
    ensures
        r@.map_values(|x: String| x@) == lines_spec(s@),
{
    let n = s.unicode_len();
    let mut out: Vec<String> = Vec::new();
    let mut pos: usize = 0;
    proof {
        assert(s@.subrange(0, n as int) =~= s@);
    }
    while pos < n
        invariant
            0 <= pos <= n,
            n == s@.len(),
            out@.map_values(|x: String| x@) + lines_spec(s@.subrange(pos as int, n as int))
                =~= lines_spec(s@),
        decreases n - pos,
    {
        let ghost tail = s@.subrange(pos as int, n as int);
        let mut k: usize = pos;
        while k < n && s.get_char(k) != '\n'
            invariant
                pos <= k <= n,
                n == s@.len(),
                forall|t: int| pos <= t < k ==> s@[t] != '\n',
            decreases n - k,
        {
            k = k + 1;
        }
        proof {
            assert(forall|t: int| 0 <= t < k - pos ==> #[trigger] tail[t] != '\n');
            if k < n {
                assert(tail[k - pos] == '\n');
            }
            lemma_first_nl_at(tail, k - pos);
        }
        let line_end = if k < n && k > pos && s.get_char(k - 1) == '\r' { k - 1 } else { k };
        let mut line = String::new();
        let mut i: usize = pos;
        while i < line_end
            invariant
                pos <= i <= line_end <= n,
                n == s@.len(),
                line@ =~= s@.subrange(pos as int, i as int),
            decreases line_end - i,
        {
            push_char(&mut line, s.get_char(i));
            i = i + 1;
        }
        proof {
            assert(tail.subrange(0, k - pos) =~= s@.subrange(pos as int, k as int));
            if k < n {
                assert(line@ =~= strip_cr(s@.subrange(pos as int, k as int)));
                assert(tail.subrange(k - pos + 1, tail.len() as int)
                    =~= s@.subrange(k + 1, n as int));
            } else {
                assert(line@ =~= tail);
            }
        }
        out.push(line);
        proof {
            assert(out@.map_values(|x: String| x@)
                + lines_spec(s@.subrange((if k < n { k + 1 } else { n as int }), n as int))
                =~= lines_spec(s@));
        }
        if k < n {
            pos = k + 1;
        } else {
            pos = n;
        }
    }
    proof {
        assert(s@.subrange(n as int, n as int) =~= Seq::<char>::empty());
        assert(out@.map_values(|x: String| x@) =~= lines_spec(s@));
    }
    out
}

pub open spec fn digit_char(d: nat) -> char {
    if d == 0 { '0' }
    else if d == 1 { '1' }
    else if d == 2 { '2' }
    else if d == 3 { '3' }
    else if d == 4 { '4' }
    else if d == 5 { '5' }
    else if d == 6 { '6' }
    else if d == 7 { '7' }
    else if d == 8 { '8' }
    else { '9' }
}

/// The decimal rendering of a natural number, most significant digit first.
pub open spec fn dec_digits(n: nat) -> Seq<char>
    decreases n,
{
    if n < 10 {
        seq![digit_char(n)]
    } else {
        dec_digits(n / 10).push(digit_char(n % 10))
    }
}

fn digit_char_exec(d: usize) -> (c: char)
    requires
        d < 10,
    ensures
        c == digit_char(d as nat),
{
    if d == 0 { '0' }
    else if d == 1 { '1' }
    else if d == 2 { '2' }
    else if d == 3 { '3' }
    else if d == 4 { '4' }
    else if d == 5 { '5' }
    else if d == 6 { '6' }
    else if d == 7 { '7' }
    else if d == 8 { '8' }
    else { '9' }
}

/// Renders an index in decimal, as the path encoder needs it.
pub fn usize_to_string(n: usize) -> (s: String)
    ensures
        s@ == dec_digits(n as nat),
{
    let mut rev: Vec<char> = Vec::new();
    if n == 0 {
        rev.push('0');
        proof {
            assert(rev@.reverse() =~= seq!['0']);
        }
    } else {
        let mut m: usize = n;
        while m > 0
            invariant
                m > 0 ==> dec_digits(n as nat) == dec_digits(m as nat) + rev@.reverse(),
                m == 0 ==> dec_digits(n as nat) == rev@.reverse(),
            decreases m,
        {
            let d = m % 10;
            let next = m / 10;
            let ghost r0 = rev@;
            rev.push(digit_char_exec(d));
            proof {
                assert(rev@.reverse() =~= seq![digit_char(d as nat)] + r0.reverse());
                if m >= 10 {
                    assert(dec_digits(m as nat)
                        == dec_digits(next as nat).push(digit_char(d as nat)));
                    assert(dec_digits(next as nat) + rev@.reverse()
                        =~= dec_digits(m as nat) + r0.reverse());
                } else {
                    assert(dec_digits(m as nat) =~= seq![digit_char(d as nat)]);
                    assert(rev@.reverse() =~= dec_digits(m as nat) + r0.reverse());
                }
            }
            m = next;
        }
    }
    let mut s = String::new();
    let mut j: usize = rev.len();
    while j > 0
        invariant
            0 <= j <= rev.len(),
            s@ =~= rev@.reverse().subrange(0, (rev@.len() - j) as int),
        decreases j,
    {
        j = j - 1;
        push_char(&mut s, rev[j]);
        proof {
            assert(s@ =~= rev@.reverse().subrange(0, (rev@.len() - j) as int));
        }
    }
    proof {
        assert(s@ =~= rev@.reverse());
    }
    s
}

} // verus!
