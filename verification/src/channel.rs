use vstd::prelude::*;
use vstd::seq_lib::group_to_multiset_ensures;
use vstd::multiset::Multiset;
use crate::text::lex_le;
use crate::text::lex_lt;
use crate::text::lemma_lex_le_total;
use crate::text::lemma_lex_le_antisymmetric;
use crate::text::lemma_lex_le_transitive;
use crate::text::str_eq;
use crate::text::str_le;

verus! {

/// One eligible channel of the archive, as the browser shows it. Only
/// `selected` ever changes after construction.
pub struct ChannelSummary {
    pub channel_type: String,
    pub display_name: String,
    pub created_at: String,
    pub channel_id: String,
    pub message_count: usize,
    pub attachment_count: usize,
    pub selected: bool,
}

/// The display order: more messages first, ties by channel type and then by
/// display name, both lexicographically ascending.
pub open spec fn summary_le(a: ChannelSummary, b: ChannelSummary) -> bool {
    ||| a.message_count > b.message_count
    ||| (a.message_count == b.message_count && lex_lt(a.channel_type@, b.channel_type@))
    ||| (a.message_count == b.message_count && a.channel_type@ == b.channel_type@ && lex_le(
        a.display_name@,
        b.display_name@,
    ))
}

/// The display order relates every pair of summaries.
pub proof fn lemma_summary_le_total(a: ChannelSummary, b: ChannelSummary)
    ensures
        summary_le(a, b) || summary_le(b, a),
{
    if a.message_count == b.message_count {
        lemma_lex_le_total(a.channel_type@, b.channel_type@);
        if lex_le(a.channel_type@, b.channel_type@) && lex_le(b.channel_type@, a.channel_type@) {
            lemma_lex_le_antisymmetric(a.channel_type@, b.channel_type@);
            lemma_lex_le_total(a.display_name@, b.display_name@);
        }
    }
}

/// The display order is transitive.
pub proof fn lemma_summary_le_transitive(a: ChannelSummary, b: ChannelSummary, c: ChannelSummary)
    ensures
        summary_le(a, b) && summary_le(b, c) ==> summary_le(a, c),
{
    if summary_le(a, b) && summary_le(b, c) && a.message_count == c.message_count {
        assert(a.message_count == b.message_count);
        if a.channel_type@ == b.channel_type@ {
            lemma_lex_le_total(a.channel_type@, b.channel_type@);
        }
        if b.channel_type@ == c.channel_type@ {
            lemma_lex_le_total(b.channel_type@, c.channel_type@);
        }
        assert(lex_le(a.channel_type@, b.channel_type@));
        assert(lex_le(b.channel_type@, c.channel_type@));
        lemma_lex_le_transitive(a.channel_type@, b.channel_type@, c.channel_type@);
        if a.channel_type@ == c.channel_type@ {
            lemma_lex_le_antisymmetric(a.channel_type@, b.channel_type@);
            lemma_lex_le_transitive(a.display_name@, b.display_name@, c.display_name@);
        }
    }
}

/// Summaries each at or before the other agree on all three sort keys, so
/// the order is total and its ties are deterministic.
pub proof fn lemma_summary_le_antisymmetric_keys(a: ChannelSummary, b: ChannelSummary)
    requires
        summary_le(a, b),
        summary_le(b, a),
    ensures
        a.message_count == b.message_count,
        a.channel_type@ == b.channel_type@,
        a.display_name@ == b.display_name@,
{
    if a.channel_type@ != b.channel_type@ {
        lemma_lex_le_antisymmetric(a.channel_type@, b.channel_type@);
    }
    lemma_lex_le_antisymmetric(a.display_name@, b.display_name@);
}

/// Whether `s` stands in display order.
pub open spec fn sorted_summaries(s: Seq<ChannelSummary>) -> bool {
    forall|i: int, j: int| 0 <= i < j < s.len() ==> summary_le(s[i], s[j])
}

fn summary_le_exec(a: &ChannelSummary, b: &ChannelSummary) -> (r: bool)
    ensures
        r == summary_le(*a, *b),
{
    if a.message_count > b.message_count {
        true
    } else if a.message_count < b.message_count {
        false
    } else {
        let tle = str_le(a.channel_type.as_str(), b.channel_type.as_str());
        let teq = str_eq(a.channel_type.as_str(), b.channel_type.as_str());
        if tle && !teq {
            true
        } else if !tle {
            proof {
                lemma_lex_le_total(a.channel_type@, b.channel_type@);
            }
            false
        } else {
            str_le(a.display_name.as_str(), b.display_name.as_str())
        }
    }
}

fn insert_pos(out: &Vec<ChannelSummary>, x: &ChannelSummary) -> (pos: usize)
    ensures
        0 <= pos <= out@.len(),
        forall|j: int| 0 <= j < pos ==> summary_le(out@[j], *x),
        pos < out@.len() ==> !summary_le(out@[pos as int], *x),
{
    let mut pos: usize = 0;
    while pos < out.len()
        invariant
            0 <= pos <= out@.len(),
            forall|j: int| 0 <= j < pos ==> summary_le(out@[j], *x),
        decreases out@.len() - pos,
    {
        if !summary_le_exec(&out[pos], x) {
            return pos;
        }
        pos = pos + 1;
    }
    pos
}

/// Sorts summaries into display order. The sort is stable in effect: a list
/// already in display order comes back unchanged.
pub fn sort_channels(v: Vec<ChannelSummary>) -> (r: Vec<ChannelSummary>)
    ensures
        sorted_summaries(r@),
        r@.to_multiset() == v@.to_multiset(),
        sorted_summaries(v@) ==> r@ == v@,
{
    proof {
        broadcast use group_to_multiset_ensures;
    }
    let ghost orig = v@;
    let mut input = v;
    let mut out: Vec<ChannelSummary> = Vec::new();
    proof {
        assert(out@.to_multiset().add(input@.to_multiset()) =~= orig.to_multiset());
        assert(out@ + input@ =~= orig);
    }
    while input.len() > 0
        invariant
            sorted_summaries(out@),
            out@.to_multiset().add(input@.to_multiset()) == orig.to_multiset(),
            sorted_summaries(orig) ==> out@ + input@ == orig,
        decreases input.len(),
    {
        let ghost out_before = out@;
        let ghost input_before = input@;
        let x = input.remove(0);
        proof {
            broadcast use group_to_multiset_ensures;
            assert(input_before.remove(0).to_multiset() =~= input_before.to_multiset().remove(
                input_before[0]));
        }
        let pos = insert_pos(&out, &x);
        proof {
            if sorted_summaries(orig) {
                // Every element already placed is at or before x, so x goes
                // to the end and the concatenation is preserved.
                assert forall|j: int| 0 <= j < out_before.len() implies summary_le(
                    out_before[j], x) by {
                    assert(out_before[j] == orig[j]);
                    assert(x == orig[out_before.len() as int]);
                }
                assert(pos == out_before.len());
            }
        }
        out.insert(pos, x);
        proof {
            broadcast use group_to_multiset_ensures;
            let ghost after = out_before.insert(pos as int, x);
            assert(out@ == after);
            // Sortedness of the new list.
            assert forall|i: int, j: int| 0 <= i < j < after.len() implies summary_le(
                after[i], after[j]) by {
                if i < pos {
                    assert(after[i] == out_before[i]);
                }
                if i > pos {
                    assert(after[i] == out_before[i - 1]);
                }
                if j < pos {
                    assert(after[j] == out_before[j]);
                }
                if j > pos {
                    assert(after[j] == out_before[j - 1]);
                }
                if i == pos && j > pos {
                    // after[i] is x, which stands at or before everything
                    // from the old position `pos` on.
                    lemma_summary_le_total(out_before[pos as int], x);
                    if j > pos + 1 {
                        lemma_summary_le_transitive(
                            x,
                            out_before[pos as int],
                            out_before[j - 1],
                        );
                    }
                }
            }
            // Multiset preservation.
            assert(after =~= out_before.subrange(0, pos as int) + seq![x] + out_before.subrange(
                pos as int, out_before.len() as int));
            vstd::seq_lib::lemma_multiset_commutative(
                out_before.subrange(0, pos as int) + seq![x],
                out_before.subrange(pos as int, out_before.len() as int),
            );
            vstd::seq_lib::lemma_multiset_commutative(
                out_before.subrange(0, pos as int),
                seq![x],
            );
            assert(out_before.subrange(0, pos as int) + out_before.subrange(
                pos as int, out_before.len() as int) =~= out_before);
            vstd::seq_lib::lemma_multiset_commutative(
                out_before.subrange(0, pos as int),
                out_before.subrange(pos as int, out_before.len() as int),
            );
            assert(seq![x] =~= Seq::<ChannelSummary>::empty().push(x));
            assert(Seq::<ChannelSummary>::empty().to_multiset() =~= Multiset::<
                ChannelSummary,
            >::empty());
            assert(seq![x].to_multiset() =~= Multiset::<ChannelSummary>::empty().insert(x));
            assert(out@.to_multiset().add(input@.to_multiset()) =~= orig.to_multiset());
            if sorted_summaries(orig) {
                assert(out@ + input@ =~= orig);
            }
        }
    }
    proof {
        broadcast use group_to_multiset_ensures;
        assert(input@.to_multiset().len() == 0);
        assert(out@.to_multiset().add(input@.to_multiset()) =~= out@.to_multiset());
        if sorted_summaries(orig) {
            assert(out@ =~= orig);
        }
    }
    out
}

/// `s` with the selection flag of entry `i` flipped and all else unchanged.
pub open spec fn spec_toggle(s: Seq<ChannelSummary>, i: int) -> Seq<ChannelSummary> {
    s.update(i, ChannelSummary { selected: !s[i].selected, ..s[i] })
}

/// Flips the selection flag of the channel at `i`: no other entry and no
/// other field changes.
pub fn toggle_channel(channels: &mut Vec<ChannelSummary>, i: usize)
    requires
        i < old(channels)@.len(),
    ensures
        final(channels)@ == spec_toggle(old(channels)@, i as int),
        final(channels)@.len() == old(channels)@.len(),
        final(channels)@[i as int].selected == !old(channels)@[i as int].selected,
        forall|j: int|
            0 <= j < old(channels)@.len() && j != i ==> final(channels)@[j] == old(
            channels)@[j],
{
    let mut x = channels.remove(i);
    x.selected = !x.selected;
    channels.insert(i, x);
    proof {
        assert(final(channels)@ =~= spec_toggle(old(channels)@, i as int));
    }
}

/// Toggling the same entry twice restores the original list exactly.
pub proof fn lemma_toggle_twice(s: Seq<ChannelSummary>, i: int)
    requires
        0 <= i < s.len(),
    ensures
        spec_toggle(spec_toggle(s, i), i) == s,
{
    assert(spec_toggle(spec_toggle(s, i), i) =~= s);
}

} // verus!
