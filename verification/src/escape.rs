use vstd::prelude::*;
use crate::strutil::{replace_seq, replace_str, concat_str};
use crate::jsontext::{parse_json, spec_parse};

verus! {

/// The escape pass over JSON text: backslashes first, then quotes, then the
/// three control characters, each pass a plain textual replacement.
pub open spec fn escape_spec(s: Seq<char>) -> Seq<char> {
    let s1 = replace_seq(s, "\\"@, "\\\\"@);
    let s2 = replace_seq(s1, "\""@, "\\\""@);
    let s3 = replace_seq(s2, "\n"@, "\\n"@);
    let s4 = replace_seq(s3, "\r"@, "\\r"@);
    replace_seq(s4, "\t"@, "\\t"@)
}

/// The unescape pass: the three control sequences first, then quotes, and
/// backslashes last so fresh backslashes are not unescaped twice.
pub open spec fn unescape_spec(s: Seq<char>) -> Seq<char> {
    let s1 = replace_seq(s, "\\n"@, "\n"@);
    let s2 = replace_seq(s1, "\\r"@, "\r"@);
    let s3 = replace_seq(s2, "\\t"@, "\t"@);
    let s4 = replace_seq(s3, "\\\""@, "\""@);
    replace_seq(s4, "\\\\"@, "\\"@)
}

#[derive(Debug)]
pub struct JsonEscapeResult {
    pub escaped: String,
}

#[derive(Debug)]
pub struct JsonUnescapeResult {
    pub unescaped: String,
    pub is_valid: bool,
}

/// Validates the text as JSON, then escapes it for use inside a string
/// literal. Fails exactly on text the parser rejects.
pub fn escape_json(json_str: String) -> (r: Result<JsonEscapeResult, String>)
    ensures
        r is Ok <==> spec_parse(json_str@) is Some,
        r matches Ok(e) ==> e.escaped@ == escape_spec(json_str@),
{
    match parse_json(json_str.as_str()) {
        Ok(_) => {},
        Err(e) => {
            return Err(concat_str("JSON解析错误: ", e.as_str()));
        },
    };
    proof {
        reveal_strlit("\\");
        reveal_strlit("\"");
        reveal_strlit("\n");
        reveal_strlit("\r");
        reveal_strlit("\t");
    }
    let s1 = replace_str(json_str.as_str(), "\\", "\\\\");
    let s2 = replace_str(s1.as_str(), "\"", "\\\"");
    let s3 = replace_str(s2.as_str(), "\n", "\\n");
    let s4 = replace_str(s3.as_str(), "\r", "\\r");
    let s5 = replace_str(s4.as_str(), "\t", "\\t");
    Ok(JsonEscapeResult { escaped: s5 })
}

/// Undoes the escape pass and reports whether what came out parses as JSON.
pub fn unescape_json(escaped_str: String) -> (r: Result<JsonUnescapeResult, String>)
    ensures
        r matches Ok(u) ==> {
            &&& u.unescaped@ == unescape_spec(escaped_str@)
            &&& u.is_valid == (spec_parse(unescape_spec(escaped_str@)) is Some)
        },
        r is Ok,
{
    proof {
        reveal_strlit("\\n");
        reveal_strlit("\\r");
        reveal_strlit("\\t");
        reveal_strlit("\\\"");
        reveal_strlit("\\\\");
    }
    let s1 = replace_str(escaped_str.as_str(), "\\n", "\n");
    let s2 = replace_str(s1.as_str(), "\\r", "\r");
    let s3 = replace_str(s2.as_str(), "\\t", "\t");
    let s4 = replace_str(s3.as_str(), "\\\"", "\"");
    let s5 = replace_str(s4.as_str(), "\\\\", "\\");
    let is_valid = parse_json(s5.as_str()).is_ok();
    Ok(JsonUnescapeResult { unescaped: s5, is_valid })
}

} // verus!
