use vstd::prelude::*;

verus! {

/// What the index file text parses to: each channel identifier with its raw
/// label, in ascending key order, or nothing when the text is not a flat
/// JSON object of strings.
pub uninterp spec fn parsed_index(s: Seq<char>) -> Option<Seq<(String, String)>>;

/// Relies on serde_json::from_str::<BTreeMap<String, String>>: a flat JSON
/// object of string keys and string values parses to its entries, and the
/// outcome depends on the text alone.
#[verifier::external_body]
pub(crate) fn parse_index_json(s: &str) -> (r: Option<Vec<(String, String)>>)
    ensures
        match r {
            Some(v) => parsed_index(s@) == Some(v@),
            None => parsed_index(s@) is None,
        },
{
    let m: std::collections::BTreeMap<String, String> = match serde_json::from_str(s) {
        Ok(m) => m,
        Err(_) => return None,
    };
    Some(m.into_iter().collect())
}

/// What a channel metadata file parses to: the `id` and `type` strings, or
/// nothing when either field is missing or not a string.
pub uninterp spec fn parsed_channel_info(s: Seq<char>) -> Option<(String, String)>;

/// Relies on serde_json::from_str::<Value>, Value::get and Value::as_str: a
/// JSON object whose `id` and `type` fields hold strings parses to that
/// pair, and the outcome depends on the text alone.
#[verifier::external_body]
pub(crate) fn parse_channel_json(s: &str) -> (r: Option<(String, String)>)
    ensures
        match r {
            Some(p) => parsed_channel_info(s@) == Some(p),
            None => parsed_channel_info(s@) is None,
        },
{
    let v: serde_json::Value = match serde_json::from_str(s) {
        Ok(v) => v,
        Err(_) => return None,
    };
    let id = v.get("id")?.as_str()?.to_string();
    let ty = v.get("type")?.as_str()?.to_string();
    Some((id, ty))
}

/// What a message log file parses to: for each record, its `Attachments`
/// field when that field holds a string, its `ID` when that field holds an
/// unsigned number, and its `ID` text when that field holds a string.
pub uninterp spec fn parsed_messages(s: Seq<char>) -> Option<
    Seq<(Option<String>, Option<u64>, Option<String>)>,
>;

/// Relies on serde_json::from_str::<Vec<Value>>, Value::get, Value::as_str
/// and Value::as_u64: a JSON array of records reduces to the three fields
/// named by `parsed_messages`, and the outcome depends on the text alone.
#[verifier::external_body]
pub(crate) fn parse_messages_json(s: &str) -> (r: Option<
    Vec<(Option<String>, Option<u64>, Option<String>)>,
>)
    ensures
        match r {
            Some(v) => parsed_messages(s@) == Some(v@),
            None => parsed_messages(s@) is None,
        },
{
    let vals: Vec<serde_json::Value> = match serde_json::from_str(s) {
        Ok(v) => v,
        Err(_) => return None,
    };
    Some(vals.iter().map(|m| (
        m.get("Attachments").and_then(|a| a.as_str()).map(|t| t.to_string()),
        m.get("ID").and_then(|x| x.as_u64()),
        m.get("ID").and_then(|x| x.as_str()).map(|t| t.to_string()),
    )).collect())
}

/// The pretty-printed JSON object holding the given index entries.
pub uninterp spec fn index_json_of(entries: Seq<(String, String)>) -> Seq<char>;

/// Relies on serde_json::to_string_pretty on a BTreeMap of string slices:
/// serializing a map of strings cannot fail, and the text depends on the
/// entries alone.
#[verifier::external_body]
pub(crate) fn index_json_text(entries: &Vec<(String, String)>) -> (r: String)
    ensures
        r@ == index_json_of(entries@),
{
    let m: std::collections::BTreeMap<&str, &str> = entries.iter().map(
        |p| (p.0.as_str(), p.1.as_str()),
    ).collect();
    serde_json::to_string_pretty(&m).unwrap_or_default()
}

} // verus!
