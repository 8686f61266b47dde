use vstd::prelude::*;
use crate::strutil::{trim_spec, trim_start_spec, trim_str, trim_start_str, repeat_seq, repeat_str,
    lines_spec, lines_vec, first_char_is, last_char_is, starts_with_str, contains_char, str_eq,
    push_char, concat_str};
use crate::jsontext::{parse_json, spec_parse, pretty_text_of, compact_text_of, render_json,
    render_json_pretty};

verus! {

#[derive(Debug)]
pub struct FormatCodeResult {
    pub formatted: String,
    pub language: String,
}

#[derive(Debug)]
pub struct JsonFormatResult {
    pub formatted: String,
    pub is_valid: bool,
}

/// A line that lowers the brace depth before it is printed.
pub open spec fn js_closes(t: Seq<char>) -> bool {
    t.len() > 0 && (t[0] == '}' || t[0] == ']' || t[0] == ')')
}

/// A line that raises the brace depth after it is printed.
pub open spec fn js_opens(t: Seq<char>) -> bool {
    t.len() > 0 && (t[t.len() - 1] == '{' || t[t.len() - 1] == '[' || t[t.len() - 1] == '(')
}

pub open spec fn gen_closes(t: Seq<char>) -> bool {
    (t.len() > 0 && t[0] == '}')
        || (t.len() >= "end"@.len() && t.subrange(0, "end"@.len() as int) == "end"@)
        || (t.len() >= "endif"@.len() && t.subrange(0, "endif"@.len() as int) == "endif"@)
}

pub open spec fn gen_opens(t: Seq<char>) -> bool {
    (t.len() > 0 && t[t.len() - 1] == '{') || t.contains(':')
}

/// One pass over the lines: each line is trimmed and re-printed behind the
/// running indent, which closing lines lower first and opening lines raise
/// afterwards; blank lines pass through.
pub open spec fn fmt_fold(lines: Seq<Seq<char>>, li: int, out: Seq<char>, lvl: nat,
    indent: Seq<char>, js: bool) -> Seq<char>
    decreases lines.len() - li,
    when 0 <= li
{
    if li >= lines.len() {
        out
    } else {
        let t = trim_spec(lines[li]);
        if t.len() == 0 {
            fmt_fold(lines, li + 1, out.push('\n'), lvl, indent, js)
        } else {
            let closes = if js { js_closes(t) } else { gen_closes(t) };
            let opens = if js { js_opens(t) } else { gen_opens(t) };
            let lvl1: nat = if closes && lvl > 0 { (lvl - 1) as nat } else { lvl };
            let out2 = out + repeat_seq(indent, lvl1) + t + seq!['\n'];
            let lvl2: nat = if opens { lvl1 + 1 } else { lvl1 };
            fmt_fold(lines, li + 1, out2, lvl2, indent, js)
        }
    }
}

pub open spec fn format_javascript_spec(code: Seq<char>, indent: Seq<char>) -> Seq<char> {
    trim_spec(fmt_fold(lines_spec(code), 0, Seq::empty(), 0, indent, true))
}

pub open spec fn format_generic_spec(code: Seq<char>, indent: Seq<char>) -> Seq<char> {
    trim_spec(fmt_fold(lines_spec(code), 0, Seq::empty(), 0, indent, false))
}

#[verifier::loop_isolation(false)]
fn fmt_lines(lines: &Vec<String>, indent: &str, js: bool) -> (r: String)
    ensures
        r@ == fmt_fold(lines@.map_values(|x: String| x@), 0, Seq::empty(), 0, indent@, js),
{
    let ghost ls = lines@.map_values(|x: String| x@);
    let mut out = String::new();
    let mut lvl: usize = 0;
    let mut li: usize = 0;
    while li < lines.len()
        invariant
            0 <= li <= lines.len(),
            lvl <= li,
            fmt_fold(ls, li as int, out@, lvl as nat, indent@, js)
                == fmt_fold(ls, 0, Seq::empty(), 0, indent@, js),
        decreases lines.len() - li,
    {
        let ghost out_pre = out@;
        let ghost lvl_pre = lvl as nat;
        let trimmed = trim_str(lines[li].as_str());
        proof {
            assert(ls[li as int] == lines@[li as int]@);
            assert(trimmed@ == trim_spec(ls[li as int]));
        }
        if trimmed.unicode_len() == 0 {
            push_char(&mut out, '\n');
            proof {
                assert(fmt_fold(ls, li as int, out_pre, lvl_pre, indent@, js)
                    == fmt_fold(ls, li + 1, out@, lvl as nat, indent@, js));
            }
        } else {
            let closes = if js {
                first_char_is(trimmed.as_str(), '}') || first_char_is(trimmed.as_str(), ']')
                    || first_char_is(trimmed.as_str(), ')')
            } else {
                first_char_is(trimmed.as_str(), '}')
                    || starts_with_str(trimmed.as_str(), "end")
                    || starts_with_str(trimmed.as_str(), "endif")
            };
            if closes && lvl > 0 {
                lvl = lvl - 1;
            }
            out.append(repeat_str(indent, lvl).as_str());
            out.append(trimmed.as_str());
            push_char(&mut out, '\n');
            let opens = if js {
                last_char_is(trimmed.as_str(), '{') || last_char_is(trimmed.as_str(), '[')
                    || last_char_is(trimmed.as_str(), '(')
            } else {
                last_char_is(trimmed.as_str(), '{') || contains_char(trimmed.as_str(), ':')
            };
            proof {
                let t = trim_spec(ls[li as int]);
                assert(closes == if js { js_closes(t) } else { gen_closes(t) });
                assert(opens == if js { js_opens(t) } else { gen_opens(t) });
                assert(out@ =~= out_pre + repeat_seq(indent@, lvl as nat) + t + seq!['\n']);
            }
            if opens {
                lvl = lvl + 1;
            }
            proof {
                assert(fmt_fold(ls, li as int, out_pre, lvl_pre, indent@, js)
                    == fmt_fold(ls, li + 1, out@, lvl as nat, indent@, js));
            }
        }
        li = li + 1;
    }
    out
}

/// Re-indents JavaScript or TypeScript text line by line, going by braces,
/// brackets and parentheses.
pub fn format_javascript(code: &str, indent: &str) -> (r: String)
    ensures
        r@ == format_javascript_spec(code@, indent@),
{
    let lines = lines_vec(code);
    let folded = fmt_lines(&lines, indent, true);
    trim_str(folded.as_str())
}

/// Re-indents any other text line by line, going by braces, `end` keywords
/// and trailing colons.
pub fn format_generic(code: &str, indent: &str) -> (r: String)
    ensures
        r@ == format_generic_spec(code@, indent@),
{
    let lines = lines_vec(code);
    let folded = fmt_lines(&lines, indent, false);
    trim_str(folded.as_str())
}

/// The indent unit the caller asked for: a tab, or the given number of
/// spaces, two when unspecified.
pub open spec fn chosen_indent(indent_size: Option<usize>, use_tabs: Option<bool>) -> Seq<char> {
    if use_tabs == Some(true) {
        "\t"@
    } else {
        repeat_seq(" "@, (match indent_size { Some(n) => n as nat, None => 2 }))
    }
}

/// Pretty-prints JSON, or re-indents code text by its language. JSON fails
/// exactly on text the parser rejects; the line-based formatters accept
/// everything.
pub fn format_code(code: String, language: String, indent_size: Option<usize>,
    use_tabs: Option<bool>) -> (r: Result<FormatCodeResult, String>)
    ensures
        language@ == "json"@ ==> (r is Ok <==> spec_parse(code@) is Some),
        language@ == "json"@ ==> (r matches Ok(f) ==> (spec_parse(code@) matches Some(m)
            && f.formatted@ == pretty_text_of(m) && f.language@ == language@)),
        (language@ == "javascript"@ || language@ == "typescript"@) ==> (r matches Ok(f)
            && f.formatted@ == format_javascript_spec(
                code@, chosen_indent(indent_size, use_tabs))
            && f.language@ == language@),
        (language@ != "json"@ && language@ != "javascript"@ && language@ != "typescript"@)
            ==> (r matches Ok(f)
                && f.formatted@ == format_generic_spec(
                    code@, chosen_indent(indent_size, use_tabs))
                && f.language@ == language@),
{
    proof {
        reveal_strlit("json");
        reveal_strlit("javascript");
        reveal_strlit("typescript");
        assert("json"@.len() == 4);
        assert("javascript"@.len() == 10);
        assert("typescript"@.len() == 10);
        assert("javascript"@[0] == 'j' && "typescript"@[0] == 't');
    }
    let size = match indent_size {
        Some(n) => n,
        None => 2,
    };
    let tabs = match use_tabs {
        Some(b) => b,
        None => false,
    };
    let indent = if tabs {
        String::from_str("\t")
    } else {
        repeat_str(" ", size)
    };
    let formatted = if str_eq(language.as_str(), "json") {
        let value = match parse_json(code.as_str()) {
            Ok(v) => v,
            Err(e) => {
                return Err(concat_str("JSON解析错误: ", e.as_str()));
            },
        };
        render_json_pretty(&value)
    } else if str_eq(language.as_str(), "javascript") || str_eq(language.as_str(), "typescript") {
        format_javascript(code.as_str(), indent.as_str())
    } else {
        format_generic(code.as_str(), indent.as_str())
    };
    Ok(FormatCodeResult { formatted, language })
}

/// Pretty-prints one JSON document; fails exactly on text the parser
/// rejects.
pub fn format_json(code: String) -> (r: Result<FormatCodeResult, String>)
    ensures
        r is Ok <==> spec_parse(code@) is Some,
        r matches Ok(f) ==> (spec_parse(code@) matches Some(m)
            && f.formatted@ == pretty_text_of(m) && f.language@ == "json"@),
{
    let value = match parse_json(code.as_str()) {
        Ok(v) => v,
        Err(e) => {
            return Err(concat_str("JSON解析错误: ", e.as_str()));
        },
    };
    Ok(FormatCodeResult {
        formatted: render_json_pretty(&value),
        language: String::from_str("json"),
    })
}

/// Spaces at the head of a line, as the re-indenter counts them.
pub open spec fn leading_spaces(line: Seq<char>) -> nat
    decreases line.len(),
{
    if line.len() > 0 && line[0] == ' ' {
        1 + leading_spaces(line.subrange(1, line.len() as int))
    } else {
        0
    }
}

proof fn lemma_leading_at(line: Seq<char>, j: int)
    requires
        0 <= j <= line.len(),
        forall|k: int| 0 <= k < j ==> line[k] == ' ',
        j == line.len() || line[j] != ' ',
    ensures
        leading_spaces(line) == j,
    decreases j,
{
    if j > 0 {
        let t = line.subrange(1, line.len() as int);
        assert(forall|k: int| 0 <= k < j - 1 ==> #[trigger] t[k] == ' ');
        lemma_leading_at(t, j - 1);
    }
}

/// The pretty printer indents two spaces per level; this pass rewrites each
/// line's indent to the asked-for width, keeping the level.
pub open spec fn reindent_fold(lines: Seq<Seq<char>>, li: int, out: Seq<char>, size: nat)
    -> Seq<char>
    decreases lines.len() - li,
    when 0 <= li
{
    if li >= lines.len() {
        out
    } else {
        let line = lines[li];
        let lvl = leading_spaces(line) / 2;
        let piece = repeat_seq(repeat_seq(" "@, size), lvl) + trim_start_spec(line);
        let out2 = out + piece + (if li + 1 < lines.len() { seq!['\n'] } else { Seq::empty() });
        reindent_fold(lines, li + 1, out2, size)
    }
}

pub open spec fn reindent_spec(s: Seq<char>, size: nat) -> Seq<char> {
    reindent_fold(lines_spec(s), 0, Seq::empty(), size)
}

#[verifier::loop_isolation(false)]
fn reindent(text: &str, size: usize) -> (r: String)
    ensures
        r@ == reindent_spec(text@, size as nat),
{
    let lines = lines_vec(text);
    let ghost ls = lines@.map_values(|x: String| x@);
    let mut out = String::new();
    let mut li: usize = 0;
    while li < lines.len()
        invariant
            0 <= li <= lines.len(),
            reindent_fold(ls, li as int, out@, size as nat)
                == reindent_fold(ls, 0, Seq::empty(), size as nat),
        decreases lines.len() - li,
    {
        let ghost out_pre = out@;
        proof {
            assert(ls[li as int] == lines@[li as int]@);
        }
        let line = &lines[li];
        let n = line.as_str().unicode_len();
        let mut j: usize = 0;
        while j < n && line.as_str().get_char(j) == ' '
            invariant
                0 <= j <= n,
                n == line@.len(),
                forall|k: int| 0 <= k < j ==> line@[k] == ' ',
            decreases n - j,
        {
            j = j + 1;
        }
        proof {
            lemma_leading_at(line@, j as int);
        }
        let lvl = j / 2;
        let unit = repeat_str(" ", size);
        let pad = repeat_str(unit.as_str(), lvl);
        out.append(pad.as_str());
        let rest = trim_start_str(line.as_str());
        out.append(rest.as_str());
        if li + 1 < lines.len() {
            push_char(&mut out, '\n');
        }
        proof {
            assert(out@ =~= out_pre
                + (repeat_seq(repeat_seq(" "@, size as nat), (leading_spaces(ls[li as int]) / 2))
                    + trim_start_spec(ls[li as int]))
                + (if li + 1 < ls.len() { seq!['\n'] } else { Seq::<char>::empty() }));
            assert(reindent_fold(ls, li as int, out_pre, size as nat)
                == reindent_fold(ls, li + 1, out@, size as nat));
        }
        li = li + 1;
    }
    out
}

/// Pretty-prints JSON with the asked-for indent width; two spaces is the
/// printer's own output, any other width is rewritten line by line. Fails
/// exactly on text the parser rejects.
pub fn format_json_pretty(json_str: String, indent_size: Option<usize>)
    -> (r: Result<JsonFormatResult, String>)
    ensures
        r is Ok <==> spec_parse(json_str@) is Some,
        r matches Ok(f) ==> (spec_parse(json_str@) matches Some(m) && {
            &&& f.is_valid == true
            &&& f.formatted@ == (if (match indent_size { Some(n) => n as nat, None => 2 })
                == 2 { pretty_text_of(m) } else {
                reindent_spec(pretty_text_of(m),
                    (match indent_size { Some(n) => n as nat, None => 2 }))
            })
        }),
{
    let size = match indent_size {
        Some(n) => n,
        None => 2,
    };
    let value = match parse_json(json_str.as_str()) {
        Ok(v) => v,
        Err(e) => {
            return Err(concat_str("JSON解析错误: ", e.as_str()));
        },
    };
    let pretty = render_json_pretty(&value);
    let formatted = if size != 2 {
        reindent(pretty.as_str(), size)
    } else {
        pretty
    };
    Ok(JsonFormatResult { formatted, is_valid: true })
}

/// Renders JSON compactly, without any spacing. Fails exactly on text the
/// parser rejects.
pub fn compress_json(json_str: String) -> (r: Result<JsonFormatResult, String>)
    ensures
        r is Ok <==> spec_parse(json_str@) is Some,
        r matches Ok(f) ==> (spec_parse(json_str@) matches Some(m)
            && f.formatted@ == compact_text_of(m) && f.is_valid == true),
{
    let value = match parse_json(json_str.as_str()) {
        Ok(v) => v,
        Err(e) => {
            return Err(concat_str("JSON解析错误: ", e.as_str()));
        },
    };
    Ok(JsonFormatResult { formatted: render_json(&value), is_valid: true })
}

/// Says whether the text parses as JSON: `Ok(true)` exactly on text the
/// parser accepts, the parser's diagnostic otherwise.
pub fn validate_json(json_str: String) -> (r: Result<bool, String>)
    ensures
        r is Ok <==> spec_parse(json_str@) is Some,
        r matches Ok(b) ==> b == true,
{
    match parse_json(json_str.as_str()) {
        Ok(_) => Ok(true),
        Err(e) => Err(concat_str("JSON无效: ", e.as_str())),
    }
}

} // verus!
