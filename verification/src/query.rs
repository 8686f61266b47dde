use vstd::prelude::*;
use crate::value::{JsonValue, JsonModel, entry_models, lemma_entry_models};
use crate::jsontext::{parse_json, spec_parse};
use crate::strutil::push_char;

verus! {

/// The query fragment of one object member, if it carries one: strings,
/// numbers and booleans become `key=value`, with a number rendered as the
/// parser canonically renders it; anything else is dropped.
pub open spec fn query_part(key: Seq<char>, v: JsonModel) -> Option<Seq<char>> {
    match v {
        JsonModel::Text(s) => Some(key + "="@ + s),
        JsonModel::Number(d) => Some(key + "="@ + d),
        JsonModel::Boolean(b) => Some(key + "="@ + (if b { "true"@ } else { "false"@ })),
        _ => None,
    }
}

pub open spec fn query_parts(entries: Seq<(Seq<char>, JsonModel)>, i: int) -> Seq<Seq<char>>
    decreases entries.len() - i,
    when 0 <= i
{
    if i >= entries.len() {
        Seq::empty()
    } else {
        let head = match query_part(entries[i].0, entries[i].1) {
            Some(p) => seq![p],
            None => Seq::<Seq<char>>::empty(),
        };
        head + query_parts(entries, i + 1)
    }
}

pub open spec fn join_amp(parts: Seq<Seq<char>>, i: int) -> Seq<char>
    decreases parts.len() - i,
    when 0 <= i
{
    if i >= parts.len() {
        Seq::empty()
    } else if i == parts.len() - 1 {
        parts[i]
    } else {
        parts[i] + "&"@ + join_amp(parts, i + 1)
    }
}

/// The query string of a document: the fragments of its top-level members
/// joined with ampersands; a document that is no object gives nothing.
pub open spec fn query_of(m: JsonModel) -> Seq<char> {
    match m {
        JsonModel::Object(entries) => join_amp(query_parts(entries, 0), 0),
        _ => Seq::empty(),
    }
}

/// Turns a parsed document into a query string, member by member.
#[verifier::loop_isolation(false)]
pub fn json_to_query(json: &JsonValue) -> (r: String)
    ensures
        r@ == query_of(json@),
{
    match json {
        JsonValue::Object(entries) => {
            proof {
                lemma_entry_models(entries@);
            }
            let ghost ms = entry_models(entries@);
            let mut parts: Vec<String> = Vec::new();
            let mut i: usize = 0;
            while i < entries.len()
                invariant
                    0 <= i <= entries.len(),
                    parts@.map_values(|x: String| x@) + query_parts(ms, i as int)
                        =~= query_parts(ms, 0),
                decreases entries.len() - i,
            {
                let entry = &entries[i];
                let piece: Option<String> = match &entry.1 {
                    JsonValue::Text(s) => {
                        let mut p = entry.0.clone();
                        push_char(&mut p, '=');
                        p.append(s.as_str());
                        proof {
                            reveal_strlit("=");
                            assert(p@ =~= ms[i as int].0 + "="@ + s@);
                        }
                        Some(p)
                    },
                    JsonValue::Number(d) => {
                        let mut p = entry.0.clone();
                        push_char(&mut p, '=');
                        p.append(d.as_str());
                        proof {
                            reveal_strlit("=");
                            assert(p@ =~= ms[i as int].0 + "="@ + d@);
                        }
                        Some(p)
                    },
                    JsonValue::Boolean(b) => {
                        let mut p = entry.0.clone();
                        push_char(&mut p, '=');
                        if *b {
                            p.append("true");
                        } else {
                            p.append("false");
                        }
                        proof {
                            reveal_strlit("=");
                            assert(p@ =~= ms[i as int].0 + "="@
                                + (if ms[i as int].1 matches JsonModel::Boolean(bb) && bb {
                                    "true"@ } else { "false"@ }));
                        }
                        Some(p)
                    },
                    _ => None,
                };
                proof {
                    assert(query_parts(ms, i as int) == (match query_part(ms[i as int].0,
                        ms[i as int].1) {
                        Some(pp) => seq![pp],
                        None => Seq::<Seq<char>>::empty(),
                    }) + query_parts(ms, i as int + 1));
                }
                match piece {
                    Some(p) => {
                        parts.push(p);
                    },
                    None => {},
                }
                proof {
                    assert(parts@.map_values(|x: String| x@) + query_parts(ms, i + 1)
                        =~= query_parts(ms, 0));
                }
                i = i + 1;
            }
            proof {
                assert(query_parts(ms, entries@.len() as int) =~= Seq::<Seq<char>>::empty());
                assert(parts@.map_values(|x: String| x@) =~= query_parts(ms, 0));
            }
            let ghost ps = query_parts(ms, 0);
            let mut out = String::new();
            let mut j: usize = 0;
            while j < parts.len()
                invariant
                    0 <= j <= parts.len(),
                    parts@.map_values(|x: String| x@) == ps,
                    ps.len() == parts@.len(),
                    out@ + join_amp(ps, j as int) =~= join_amp(ps, 0),
                decreases parts.len() - j,
            {
                out.append(parts[j].as_str());
                if j + 1 < parts.len() {
                    out.append("&");
                    proof {
                        reveal_strlit("&");
                    }
                }
                proof {
                    assert(out@ + join_amp(ps, j + 1) =~= join_amp(ps, 0));
                }
                j = j + 1;
            }
            out
        },
        _ => String::new(),
    }
}

/// The window transform behind the JSON-to-query tool: valid JSON becomes
/// its query string, anything else the fixed notice.
pub fn json2query_output(input: &str) -> (r: String)
    ensures
        spec_parse(input@) matches Some(m) ==> r@ == query_of(m),
        spec_parse(input@) is None ==> r@ == "Invalid JSON input"@,
{
    match parse_json(input) {
        Ok(v) => json_to_query(&v),
        Err(_) => String::from_str("Invalid JSON input"),
    }
}

} // verus!
