use vstd::prelude::*;
use vstd::seq_lib::group_to_multiset_ensures;
use crate::channel::ChannelSummary;
use crate::channel::sort_channels;
use crate::channel::sorted_summaries;
use crate::json::parsed_index;
use crate::json::parse_index_json;
use crate::json::parsed_channel_info;
use crate::json::parse_channel_json;
use crate::json::parsed_messages;
use crate::json::parse_messages_json;
use crate::json::index_json_of;
use crate::json::index_json_text;
use crate::label::spec_update_value;
use crate::label::update_value;
use crate::snowflake::parse_snowflake_to_timestamp;
use crate::snowflake::spec_snowflake_month_year;
use crate::text::all_digits;
use crate::text::dec_val;
use crate::text::has_prefix;

verus! {

/// Why loading the archive failed.
#[derive(Clone, Copy, PartialEq, Eq, Structural, Debug)]
pub enum LoadError {
    BadIndex,
    BadChannelMeta,
    BadMessages,
    BadChannelId,
}

impl LoadError {
    /// A diagnostic line for the failure.
    pub fn message(&self) -> (r: String)
        ensures
            r@ == match *self {
                LoadError::BadIndex => "missing or malformed index.json"@,
                LoadError::BadChannelMeta => "malformed channel.json"@,
                LoadError::BadMessages => "malformed messages.json"@,
                LoadError::BadChannelId => "invalid channel id"@,
            },
    {
        match self {
            LoadError::BadIndex => "missing or malformed index.json".to_owned(),
            LoadError::BadChannelMeta => "malformed channel.json".to_owned(),
            LoadError::BadMessages => "malformed messages.json".to_owned(),
            LoadError::BadChannelId => "invalid channel id".to_owned(),
        }
    }
}

/// Reads the index text into the mapping from channel identifier to raw
/// label; the error when the text is not a flat object of strings.
pub fn parse_index(index_text: &str) -> (r: Result<Vec<(String, String)>, LoadError>)
    ensures
        match r {
            Ok(v) => parsed_index(index_text@) == Some(v@),
            Err(e) => e == LoadError::BadIndex && parsed_index(index_text@) is None,
        },
{
    match parse_index_json(index_text) {
        Some(v) => Ok(v),
        None => Err(LoadError::BadIndex),
    }
}

/// Rewrites every label of the index by the normalization rule, keeping
/// keys and order, and renders the JSON text under which the rewritten
/// index is persisted.
pub fn preprocess_index(entries: Vec<(String, String)>) -> (r: (Vec<(String, String)>, String))
    ensures
        r.0@.len() == entries@.len(),
        forall|i: int|
            0 <= i < entries@.len() ==> (#[trigger] r.0@[i]).0@ == entries@[i].0@ && r.0@[i].1@
                == spec_update_value(entries@[i].1@),
        r.1@ == index_json_of(r.0@),
{
    let mut out: Vec<(String, String)> = Vec::new();
    let mut i: usize = 0;
    while i < entries.len()
        invariant
            0 <= i <= entries@.len(),
            out@.len() == i,
            forall|j: int|
                0 <= j < i ==> (#[trigger] out@[j]).0@ == entries@[j].0@ && out@[j].1@
                    == spec_update_value(entries@[j].1@),
        decreases entries@.len() - i,
    {
        let key = entries[i].0.clone();
        let label = update_value(entries[i].1.as_str());
        out.push((key, label));
        i = i + 1;
    }
    let text = index_json_text(&out);
    (out, text)
}

/// Whether a record counts as having an attachment: every record counts
/// except one whose attachment field is present and empty, as a comparison
/// of the JSON field against the empty string decides it.
pub open spec fn has_attachment(rec: (Option<String>, Option<u64>, Option<String>)) -> bool {
    match rec.0 {
        Some(t) => t@.len() != 0,
        None => true,
    }
}

/// How many records count as having an attachment.
pub open spec fn spec_attachment_count(
    recs: Seq<(Option<String>, Option<u64>, Option<String>)>,
) -> nat
    decreases recs.len(),
{
    if recs.len() == 0 {
        0
    } else {
        spec_attachment_count(recs.drop_last()) + if has_attachment(recs.last()) {
            1nat
        } else {
            0nat
        }
    }
}

/// Counts the records that have an attachment.
pub fn attachment_count(recs: &Vec<(Option<String>, Option<u64>, Option<String>)>) -> (n: usize)
    ensures
        n as nat == spec_attachment_count(recs@),
        n <= recs@.len(),
{
    let mut n: usize = 0;
    let mut i: usize = 0;
    while i < recs.len()
        invariant
            0 <= i <= recs@.len(),
            n <= i,
            n as nat == spec_attachment_count(recs@.subrange(0, i as int)),
        decreases recs@.len() - i,
    {
        proof {
            assert(recs@.subrange(0, i + 1).drop_last() =~= recs@.subrange(0, i as int));
            assert(recs@.subrange(0, i + 1).last() == recs@[i as int]);
        }
        let counted: bool = if recs[i].0.is_some() {
            let t = recs[i].0.as_ref().unwrap();
            t.as_str().unicode_len() != 0
        } else {
            true
        };
        if counted {
            n = n + 1;
        }
        i = i + 1;
    }
    proof {
        assert(recs@.subrange(0, recs@.len() as int) =~= recs@);
    }
    n
}

/// Whether an identifier string is a decimal number that fits 64 bits.
pub open spec fn parseable_id(s: Seq<char>) -> bool {
    s.len() > 0 && all_digits(s) && dec_val(s) <= u64::MAX
}

/// The canonical identifier a record contributes: a numeric `ID` as itself,
/// a decimal-string `ID` as its value; a record with neither is skipped.
pub open spec fn rec_id(rec: (Option<String>, Option<u64>, Option<String>)) -> Option<u64> {
    match rec.1 {
        Some(n) => Some(n),
        None => match rec.2 {
            Some(t) => if parseable_id(t@) {
                Some(dec_val(t@) as u64)
            } else {
                None
            },
            None => None,
        },
    }
}

/// The identifier texts the records contribute, in log order, each in
/// canonical decimal.
pub open spec fn spec_message_ids(
    recs: Seq<(Option<String>, Option<u64>, Option<String>)>,
) -> Seq<Seq<char>>
    decreases recs.len(),
{
    if recs.len() == 0 {
        Seq::empty()
    } else {
        spec_message_ids(recs.drop_last()) + match rec_id(recs.last()) {
            Some(n) => seq![crate::text::dec_str(n as nat)],
            None => Seq::<Seq<char>>::empty(),
        }
    }
}

/// Extracts the message identifiers of the records, in order.
pub fn message_ids(recs: &Vec<(Option<String>, Option<u64>, Option<String>)>) -> (r: Vec<String>)
    ensures
        r@.map_values(|t: String| t@) == spec_message_ids(recs@),
{
    let mut out: Vec<String> = Vec::new();
    let mut i: usize = 0;
    proof {
        assert(out@.map_values(|t: String| t@) =~= spec_message_ids(recs@.subrange(0, 0)));
    }
    while i < recs.len()
        invariant
            0 <= i <= recs@.len(),
            out@.map_values(|t: String| t@) == spec_message_ids(recs@.subrange(0, i as int)),
        decreases recs@.len() - i,
    {
        proof {
            assert(recs@.subrange(0, i + 1).drop_last() =~= recs@.subrange(0, i as int));
            assert(recs@.subrange(0, i + 1).last() == recs@[i as int]);
        }
        let id_num: Option<u64> = if recs[i].1.is_some() {
            Some(*recs[i].1.as_ref().unwrap())
        } else if recs[i].2.is_some() {
            crate::text::parse_u64(recs[i].2.as_ref().unwrap().as_str())
        } else {
            None
        };
        proof {
            assert(id_num == rec_id(recs@[i as int]));
        }
        match id_num {
            Some(n) => {
                let t = crate::text::u64_to_string(n);
                out.push(t);
                proof {
                    assert(out@.map_values(|t: String| t@) =~= spec_message_ids(
                        recs@.subrange(0, i + 1)));
                }
            },
            None => {
                proof {
                    assert(out@.map_values(|t: String| t@) =~= spec_message_ids(
                        recs@.subrange(0, i + 1)));
                }
            },
        }
        i = i + 1;
    }
    proof {
        assert(recs@.subrange(0, recs@.len() as int) =~= recs@);
    }
    out
}

/// Reads one channel's message log text and extracts its identifiers for
/// export; the error when the text does not parse.
pub fn channel_message_ids(messages_text: &str) -> (r: Result<Vec<String>, LoadError>)
    ensures
        match r {
            Ok(v) => match parsed_messages(messages_text@) {
                Some(recs) => v@.map_values(|t: String| t@) == spec_message_ids(recs),
                None => false,
            },
            Err(e) => e == LoadError::BadMessages && parsed_messages(messages_text@) is None,
        },
{
    match parse_messages_json(messages_text) {
        None => Err(LoadError::BadMessages),
        Some(recs) => Ok(message_ids(&recs)),
    }
}

/// The display name of a channel: a label that begins with the reserved
/// direct-message prefix loses that prefix.
pub open spec fn spec_display_name(l: Seq<char>) -> Seq<char> {
    if l.len() >= 5 && l.subrange(0, 5) == "DM - "@ {
        l.skip(5)
    } else {
        l
    }
}

/// Builds the summary of one channel from its parsed pieces: `None` for a
/// channel with no messages, an error for an unparseable identifier.
pub fn build_summary(
    label: &str,
    meta_id: &str,
    meta_type: &str,
    recs: &Vec<(Option<String>, Option<u64>, Option<String>)>,
) -> (r: Result<Option<ChannelSummary>, LoadError>)
    ensures
        match r {
            Err(e) => e == LoadError::BadChannelId && !parseable_id(meta_id@),
            Ok(opt) => parseable_id(meta_id@) && match opt {
                None => recs@.len() == 0,
                Some(c) => recs@.len() > 0 && c.channel_type@ == meta_type@ && c.display_name@
                    == spec_display_name(label@) && c.created_at@ == spec_snowflake_month_year(
                    dec_val(meta_id@) as u64) && c.channel_id@ == meta_id@ && c.message_count
                    == recs@.len() && c.attachment_count as nat == spec_attachment_count(recs@)
                    && c.selected,
            },
        },
{
    proof {
        reveal_strlit("DM - ");
    }
    let created = match parse_snowflake_to_timestamp(meta_id) {
        None => {
            return Err(LoadError::BadChannelId);
        },
        Some(t) => t,
    };
    if recs.len() == 0 {
        return Ok(None);
    }
    let name: String = if has_prefix(label, "DM - ") {
        let n = label.unicode_len();
        let stripped = label.substring_char(5, n);
        proof {
            assert(label@.skip(5) =~= label@.subrange(5, n as int));
        }
        stripped.to_owned()
    } else {
        label.to_owned()
    };
    Ok(Some(ChannelSummary {
        channel_type: meta_type.to_owned(),
        display_name: name,
        created_at: created,
        channel_id: meta_id.to_owned(),
        message_count: recs.len(),
        attachment_count: attachment_count(recs),
        selected: true,
    }))
}

/// One channel directory as handed in: the rewritten label from the index
/// and the texts of its two files, each absent when the file is missing.
pub struct ChannelSource {
    pub label: String,
    pub meta_text: Option<String>,
    pub messages_text: Option<String>,
}

/// The loading failure one source causes, if any; a source with a missing
/// file is skipped and causes none.
pub open spec fn source_error(src: ChannelSource) -> Option<LoadError> {
    match (src.meta_text, src.messages_text) {
        (Some(mt), Some(xt)) => match parsed_channel_info(mt@) {
            None => Some(LoadError::BadChannelMeta),
            Some(info) => match parsed_messages(xt@) {
                None => Some(LoadError::BadMessages),
                Some(recs) => if !parseable_id(info.0@) {
                    Some(LoadError::BadChannelId)
                } else {
                    None
                },
            },
        },
        _ => None,
    }
}

/// The first loading failure among the first `i` sources, if any.
pub open spec fn first_error_upto(sources: Seq<ChannelSource>, i: int) -> Option<LoadError>
    decreases i,
{
    if i <= 0 {
        None
    } else {
        match first_error_upto(sources, i - 1) {
            Some(e) => Some(e),
            None => source_error(sources[i - 1]),
        }
    }
}

proof fn lemma_first_error_persists(s: Seq<ChannelSource>, i: int, j: int)
    requires
        0 <= i <= j,
        first_error_upto(s, i) is Some,
    ensures
        first_error_upto(s, j) == first_error_upto(s, i),
    decreases j - i,
{
    if i < j {
        lemma_first_error_persists(s, i, j - 1);
    }
}

/// Whether a source yields a summary: both files present, both parse, the
/// identifier is a 64-bit decimal number, and at least one message exists.
pub open spec fn eligible(src: ChannelSource) -> bool {
    match (src.meta_text, src.messages_text) {
        (Some(mt), Some(xt)) => match (parsed_channel_info(mt@), parsed_messages(xt@)) {
            (Some(info), Some(recs)) => parseable_id(info.0@) && recs.len() > 0,
            _ => false,
        },
        _ => false,
    }
}

/// Whether `c` is the summary that source `src` yields.
pub open spec fn summary_matches(c: ChannelSummary, src: ChannelSource) -> bool {
    match (src.meta_text, src.messages_text) {
        (Some(mt), Some(xt)) => match (parsed_channel_info(mt@), parsed_messages(xt@)) {
            (Some(info), Some(recs)) => c.channel_type@ == info.1@ && c.display_name@
                == spec_display_name(src.label@) && c.created_at@ == spec_snowflake_month_year(
                dec_val(info.0@) as u64) && c.channel_id@ == info.0@ && c.message_count
                == recs.len() && c.attachment_count as nat == spec_attachment_count(recs)
                && c.selected,
            _ => false,
        },
        _ => false,
    }
}

/// Whether `rows` are exactly the summaries of the eligible ones among the
/// first `i` sources, in source order.
pub open spec fn rows_match_upto(
    rows: Seq<ChannelSummary>,
    sources: Seq<ChannelSource>,
    i: int,
) -> bool
    decreases i,
{
    if i <= 0 {
        rows.len() == 0
    } else if eligible(sources[i - 1]) {
        rows.len() > 0 && summary_matches(rows.last(), sources[i - 1]) && rows_match_upto(
            rows.drop_last(),
            sources,
            i - 1,
        )
    } else {
        rows_match_upto(rows, sources, i - 1)
    }
}

/// Loads the summary list: one summary per eligible source, in display
/// order; channels with a missing file or no messages are left out; the
/// first malformed source aborts the load with its error.
pub fn load_channels(sources: &Vec<ChannelSource>) -> (r: Result<Vec<ChannelSummary>, LoadError>)
    ensures
        match r {
            Err(e) => first_error_upto(sources@, sources@.len() as int) == Some(e),
            Ok(v) => first_error_upto(sources@, sources@.len() as int) is None
                && sorted_summaries(v@) && (forall|k: int|
                0 <= k < v@.len() ==> (#[trigger] v@[k]).message_count > 0 && v@[k].selected)
                && exists|rows: Seq<ChannelSummary>|
                #[trigger] rows_match_upto(rows, sources@, sources@.len() as int)
                    && v@.to_multiset() == rows.to_multiset(),
        },
{
    let ghost srcs = sources@;
    let mut rows: Vec<ChannelSummary> = Vec::new();
    let mut i: usize = 0;
    while i < sources.len()
        invariant
            0 <= i <= srcs.len(),
            srcs == sources@,
            first_error_upto(srcs, i as int) is None,
            rows_match_upto(rows@, srcs, i as int),
            forall|k: int|
                0 <= k < rows@.len() ==> (#[trigger] rows@[k]).message_count > 0
                    && rows@[k].selected,
        decreases srcs.len() - i,
    {
        let ghost rows_before = rows@;
        let src = &sources[i];
        if src.meta_text.is_some() && src.messages_text.is_some() {
            let mt = src.meta_text.as_ref().unwrap();
            let xt = src.messages_text.as_ref().unwrap();
            match parse_channel_json(mt.as_str()) {
                None => {
                    proof {
                        assert(source_error(srcs[i as int]) == Some(LoadError::BadChannelMeta));
                        assert(first_error_upto(srcs, i + 1) == Some(LoadError::BadChannelMeta));
                        lemma_first_error_persists(srcs, i + 1, srcs.len() as int);
                    }
                    return Err(LoadError::BadChannelMeta);
                },
                Some(info) => {
                    match parse_messages_json(xt.as_str()) {
                        None => {
                            proof {
                                assert(source_error(srcs[i as int]) == Some(
                                    LoadError::BadMessages));
                                assert(first_error_upto(srcs, i + 1) == Some(
                                    LoadError::BadMessages));
                                lemma_first_error_persists(srcs, i + 1, srcs.len() as int);
                            }
                            return Err(LoadError::BadMessages);
                        },
                        Some(recs) => {
                            match build_summary(
                                src.label.as_str(),
                                info.0.as_str(),
                                info.1.as_str(),
                                &recs,
                            ) {
                                Err(e) => {
                                    proof {
                                        assert(source_error(srcs[i as int]) == Some(
                                            LoadError::BadChannelId));
                                        assert(first_error_upto(srcs, i + 1) == Some(
                                            LoadError::BadChannelId));
                                        lemma_first_error_persists(
                                            srcs,
                                            i + 1,
                                            srcs.len() as int,
                                        );
                                    }
                                    return Err(e);
                                },
                                Ok(None) => {
                                    proof {
                                        assert(!eligible(srcs[i as int]));
                                        assert(source_error(srcs[i as int]) is None);
                                    }
                                },
                                Ok(Some(c)) => {
                                    rows.push(c);
                                    proof {
                                        assert(eligible(srcs[i as int]));
                                        assert(rows@.drop_last() =~= rows_before);
                                        assert(summary_matches(c, srcs[i as int]));
                                        assert(rows_match_upto(rows@, srcs, i + 1));
                                    }
                                },
                            }
                        },
                    }
                },
            }
        } else {
            proof {
                assert(!eligible(srcs[i as int]));
                assert(source_error(srcs[i as int]) is None);
            }
        }
        i = i + 1;
    }
    let ghost rows_final = rows@;
    let sorted = sort_channels(rows);
    proof {
        broadcast use group_to_multiset_ensures;
        assert(rows_match_upto(rows_final, srcs, srcs.len() as int));
        assert forall|k: int|
            0 <= k < sorted@.len() implies (#[trigger] sorted@[k]).message_count > 0
            && sorted@[k].selected by {
            assert(sorted@.contains(sorted@[k]));
            assert(sorted@.to_multiset().count(sorted@[k]) > 0);
            assert(rows_final.to_multiset().count(sorted@[k]) > 0);
            assert(rows_final.contains(sorted@[k]));
            let idx = choose|idx: int|
                0 <= idx < rows_final.len() && rows_final[idx] == sorted@[k];
            assert(rows_final[idx].message_count > 0);
        }
    }
    Ok(sorted)
}

} // verus!
