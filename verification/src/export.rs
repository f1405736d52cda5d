use vstd::prelude::*;
use crate::text::lex_lt;
use crate::text::lemma_lex_le_total;
use crate::text::lemma_lex_le_antisymmetric;
use crate::text::lemma_lex_le_transitive;
use crate::text::str_eq;
use crate::text::str_le;

verus! {

/// One block of the export report: a channel and its message identifiers.
pub struct ExportGroup {
    pub channel_id: String,
    pub message_ids: Vec<String>,
}

/// The identifier texts among `pairs` that belong to channel `k`, in their
/// order of appearance.
pub open spec fn ids_for(pairs: Seq<(String, String)>, k: Seq<char>) -> Seq<Seq<char>>
    decreases pairs.len(),
{
    if pairs.len() == 0 {
        Seq::empty()
    } else {
        ids_for(pairs.drop_last(), k) + if pairs.last().0@ == k {
            seq![pairs.last().1@]
        } else {
            Seq::<Seq<char>>::empty()
        }
    }
}

proof fn lemma_ids_for_absent(pairs: Seq<(String, String)>, k: Seq<char>)
    requires
        forall|i: int| 0 <= i < pairs.len() ==> (#[trigger] pairs[i]).0@ != k,
    ensures
        ids_for(pairs, k).len() == 0,
    decreases pairs.len(),
{
    if pairs.len() > 0 {
        assert(forall|i: int|
            0 <= i < pairs.drop_last().len() ==> (#[trigger] pairs.drop_last()[i]).0@ != k);
        lemma_ids_for_absent(pairs.drop_last(), k);
    }
}

/// Whether `gs` is the grouping of `pairs`: one group per channel that
/// appears, blocks in strictly ascending identifier order, and each block
/// holding exactly that channel's identifiers in input order.
pub open spec fn grouped(gs: Seq<ExportGroup>, pairs: Seq<(String, String)>) -> bool {
    &&& forall|i: int, j: int|
        0 <= i < j < gs.len() ==> lex_lt(
            (#[trigger] gs[i]).channel_id@,
            (#[trigger] gs[j]).channel_id@,
        )
    &&& forall|i: int|
        0 <= i < gs.len() ==> (#[trigger] gs[i]).message_ids@.map_values(|t: String| t@)
            == ids_for(pairs, gs[i].channel_id@) && gs[i].message_ids@.len() > 0
    &&& forall|p: int|
        0 <= p < pairs.len() ==> exists|g: int|
            0 <= g < gs.len() && (#[trigger] gs[g]).channel_id@ == (#[trigger] pairs[p]).0@
}

fn find_group(gs: &Vec<ExportGroup>, k: &str) -> (r: Option<usize>)
    ensures
        match r {
            Some(j) => j < gs@.len() && gs@[j as int].channel_id@ == k@ && forall|j2: int|
                0 <= j2 < j ==> (#[trigger] gs@[j2]).channel_id@ != k@,
            None => forall|j2: int| 0 <= j2 < gs@.len() ==> (#[trigger] gs@[j2]).channel_id@ != k@,
        },
{
    let mut j: usize = 0;
    while j < gs.len()
        invariant
            0 <= j <= gs@.len(),
            forall|j2: int| 0 <= j2 < j ==> (#[trigger] gs@[j2]).channel_id@ != k@,
        decreases gs@.len() - j,
    {
        if str_eq(gs[j].channel_id.as_str(), k) {
            return Some(j);
        }
        j = j + 1;
    }
    None
}

fn group_slot(gs: &Vec<ExportGroup>, k: &str) -> (pos: usize)
    requires
        forall|j2: int| 0 <= j2 < gs@.len() ==> (#[trigger] gs@[j2]).channel_id@ != k@,
    ensures
        0 <= pos <= gs@.len(),
        forall|j: int| 0 <= j < pos ==> lex_lt((#[trigger] gs@[j]).channel_id@, k@),
        pos < gs@.len() ==> lex_lt(k@, gs@[pos as int].channel_id@),
{
    let mut pos: usize = 0;
    while pos < gs.len()
        invariant
            0 <= pos <= gs@.len(),
            forall|j2: int| 0 <= j2 < gs@.len() ==> (#[trigger] gs@[j2]).channel_id@ != k@,
            forall|j: int| 0 <= j < pos ==> lex_lt((#[trigger] gs@[j]).channel_id@, k@),
        decreases gs@.len() - pos,
    {
        if !str_le(gs[pos].channel_id.as_str(), k) {
            proof {
                lemma_lex_le_total(gs@[pos as int].channel_id@, k@);
            }
            return pos;
        }
        pos = pos + 1;
    }
    pos
}

/// Groups exported pairs by channel identifier: one block per channel, in
/// ascending identifier order, identifiers within a block in input order.
pub fn group_pairs(pairs: &Vec<(String, String)>) -> (gs: Vec<ExportGroup>)
    ensures
        grouped(gs@, pairs@),
{
    let mut gs: Vec<ExportGroup> = Vec::new();
    let mut i: usize = 0;
    while i < pairs.len()
        invariant
            0 <= i <= pairs@.len(),
            grouped(gs@, pairs@.subrange(0, i as int)),
        decreases pairs@.len() - i,
    {
        let ghost gs_before = gs@;
        let ghost prefix = pairs@.subrange(0, i as int);
        let ghost prefix1 = pairs@.subrange(0, i + 1);
        proof {
            assert(prefix1.drop_last() =~= prefix);
            assert(prefix1.last() == pairs@[i as int]);
        }
        let key = pairs[i].0.clone();
        let val = pairs[i].1.clone();
        match find_group(&gs, key.as_str()) {
            Some(j) => {
                let mut g = gs.remove(j);
                g.message_ids.push(val);
                gs.insert(j, g);
                proof {
                    assert(gs@.len() == gs_before.len());
                    assert(forall|x: int|
                        0 <= x < gs@.len() && x != j ==> gs@[x] == gs_before[x]);
                    assert(gs@[j as int].channel_id@ == gs_before[j as int].channel_id@);
                    assert(gs@[j as int].message_ids@ =~= gs_before[
                        j as int].message_ids@.push(val));
                    assert forall|x: int| 0 <= x < gs@.len() implies (#[trigger] gs@[
                        x]).message_ids@.map_values(|t: String| t@) == ids_for(
                        prefix1, gs@[x].channel_id@) && gs@[x].message_ids@.len() > 0 by {
                        if x == j {
                            assert(gs@[x].message_ids@.map_values(|t: String| t@) =~= ids_for(
                                prefix, gs@[x].channel_id@).push(val@));
                            assert(ids_for(prefix1, gs@[x].channel_id@) =~= ids_for(
                                prefix, gs@[x].channel_id@).push(val@));
                        } else {
                            // A different group holds a different channel, so
                            // the new pair adds nothing to it.
                            assert(gs@[x].channel_id@ != key@);
                            assert(ids_for(prefix1, gs@[x].channel_id@) =~= ids_for(
                                prefix, gs@[x].channel_id@));
                        }
                    }
                    assert forall|p: int| 0 <= p < prefix1.len() implies exists|g2: int|
                        0 <= g2 < gs@.len() && (#[trigger] gs@[g2]).channel_id@ == (
                        #[trigger] prefix1[p]).0@ by {
                        if p < prefix.len() {
                            let g2 = choose|g2: int|
                                0 <= g2 < gs_before.len() && gs_before[g2].channel_id@
                                    == prefix[p].0@;
                            assert(0 <= g2 < gs@.len() && gs@[g2].channel_id@ == prefix1[p].0@);
                        } else {
                            assert(0 <= j < gs@.len() && gs@[j as int].channel_id@
                                == prefix1[p].0@);
                        }
                    }
                }
            },
            None => {
                let pos = group_slot(&gs, key.as_str());
                let mut ids: Vec<String> = Vec::new();
                ids.push(val);
                let g = ExportGroup { channel_id: key, message_ids: ids };
                gs.insert(pos, g);
                proof {
                    let ghost after = gs@;
                    assert(after.len() == gs_before.len() + 1);
                    assert(forall|x: int| 0 <= x < pos ==> after[x] == gs_before[x]);
                    assert(forall|x: int|
                        pos < x < after.len() ==> after[x] == gs_before[x - 1]);
                    assert(after[pos as int].channel_id@ == g.channel_id@);
                    // Order is kept around the insertion point.
                    assert forall|x: int, y: int| 0 <= x < y < after.len() implies lex_lt(
                        (#[trigger] after[x]).channel_id@,
                        (#[trigger] after[y]).channel_id@,
                    ) by {
                        if x == pos && y > pos {
                            if y > pos + 1 {
                                lemma_lex_le_transitive(
                                    g.channel_id@,
                                    gs_before[pos as int].channel_id@,
                                    gs_before[y - 1].channel_id@,
                                );
                                if g.channel_id@ == gs_before[y - 1].channel_id@ {
                                    lemma_lex_le_antisymmetric(
                                        g.channel_id@,
                                        gs_before[pos as int].channel_id@,
                                    );
                                }
                            }
                        }
                        if y == pos && x < pos {
                            if g.channel_id@ == gs_before[x].channel_id@ {
                                assert(false);
                            }
                        }
                    }
                    // No earlier pair holds the new channel, so its block is
                    // exactly the one new identifier.
                    assert forall|p2: int| 0 <= p2 < prefix.len() implies (
                    #[trigger] prefix[p2]).0@ != g.channel_id@ by {
                        if prefix[p2].0@ == g.channel_id@ {
                            let g2 = choose|g2: int|
                                0 <= g2 < gs_before.len() && gs_before[g2].channel_id@
                                    == prefix[p2].0@;
                        }
                    }
                    lemma_ids_for_absent(prefix, g.channel_id@);
                    assert forall|x: int| 0 <= x < after.len() implies (#[trigger] after[
                    x]).message_ids@.map_values(|t: String| t@) == ids_for(
                        prefix1, after[x].channel_id@) && after[x].message_ids@.len() > 0 by {
                        if x == pos {
                            assert(after[x].message_ids@.map_values(|t: String| t@)
                                =~= seq![val@]);
                            assert(ids_for(prefix1, after[x].channel_id@) =~= seq![val@]);
                        } else {
                            let old_x = if x < pos { x } else { x - 1 };
                            assert(after[x] == gs_before[old_x]);
                            assert(after[x].channel_id@ != key@);
                            assert(ids_for(prefix1, after[x].channel_id@) =~= ids_for(
                                prefix, after[x].channel_id@));
                        }
                    }
                    assert forall|p: int| 0 <= p < prefix1.len() implies exists|g2: int|
                        0 <= g2 < after.len() && (#[trigger] after[g2]).channel_id@ == (
                        #[trigger] prefix1[p]).0@ by {
                        if p < prefix.len() {
                            let g2 = choose|g2: int|
                                0 <= g2 < gs_before.len() && gs_before[g2].channel_id@
                                    == prefix[p].0@;
                            let new_g2 = if g2 < pos { g2 } else { g2 + 1 };
                            assert(0 <= new_g2 < after.len() && after[new_g2].channel_id@
                                == prefix1[p].0@);
                        } else {
                            assert(after[pos as int].channel_id@ == prefix1[p].0@);
                        }
                    }
                }
            },
        }
        i = i + 1;
    }
    proof {
        assert(pairs@.subrange(0, pairs@.len() as int) =~= pairs@);
    }
    gs
}

/// The identifiers joined with a comma and a space.
pub open spec fn spec_join_ids(ids: Seq<Seq<char>>) -> Seq<char>
    decreases ids.len(),
{
    if ids.len() == 0 {
        Seq::empty()
    } else if ids.len() == 1 {
        ids[0]
    } else {
        spec_join_ids(ids.drop_last()) + ", "@ + ids.last()
    }
}

/// The report text: per block, a line with the channel identifier and a
/// colon, a line with its identifiers joined, and a blank line.
pub open spec fn spec_export_text(gs: Seq<ExportGroup>) -> Seq<char>
    decreases gs.len(),
{
    if gs.len() == 0 {
        Seq::empty()
    } else {
        spec_export_text(gs.drop_last()) + gs.last().channel_id@ + ":\n"@ + spec_join_ids(
            gs.last().message_ids@.map_values(|t: String| t@)) + "\n\n"@
    }
}

/// Joins identifiers with ", ".
fn join_ids(ids: &Vec<String>) -> (r: String)
    ensures
        r@ == spec_join_ids(ids@.map_values(|t: String| t@)),
{
    let ghost idsv = ids@.map_values(|t: String| t@);
    let mut r: String = String::new();
    let mut i: usize = 0;
    proof {
        assert(idsv.subrange(0, 0) =~= Seq::<Seq<char>>::empty());
        assert(r@ =~= spec_join_ids(idsv.subrange(0, 0)));
    }
    while i < ids.len()
        invariant
            0 <= i <= ids@.len(),
            idsv == ids@.map_values(|t: String| t@),
            r@ == spec_join_ids(idsv.subrange(0, i as int)),
        decreases ids@.len() - i,
    {
        proof {
            reveal_strlit(", ");
            assert(idsv.subrange(0, i + 1).drop_last() =~= idsv.subrange(0, i as int));
            assert(idsv.subrange(0, i + 1).last() == idsv[i as int]);
        }
        if i > 0 {
            r.append(", ");
        }
        r.append(ids[i].as_str());
        proof {
            assert(r@ =~= spec_join_ids(idsv.subrange(0, i + 1)));
        }
        i = i + 1;
    }
    proof {
        assert(idsv.subrange(0, idsv.len() as int) =~= idsv);
    }
    r
}

/// Renders the grouped blocks as the export report text.
pub fn render_export(gs: &Vec<ExportGroup>) -> (r: String)
    ensures
        r@ == spec_export_text(gs@),
{
    let mut r: String = String::new();
    let mut i: usize = 0;
    proof {
        assert(gs@.subrange(0, 0) =~= Seq::<ExportGroup>::empty());
        assert(r@ =~= spec_export_text(gs@.subrange(0, 0)));
    }
    while i < gs.len()
        invariant
            0 <= i <= gs@.len(),
            r@ == spec_export_text(gs@.subrange(0, i as int)),
        decreases gs@.len() - i,
    {
        proof {
            reveal_strlit(":\n");
            reveal_strlit("\n\n");
            assert(gs@.subrange(0, i + 1).drop_last() =~= gs@.subrange(0, i as int));
            assert(gs@.subrange(0, i + 1).last() == gs@[i as int]);
        }
        r.append(gs[i].channel_id.as_str());
        r.append(":\n");
        let joined = join_ids(&gs[i].message_ids);
        r.append(joined.as_str());
        r.append("\n\n");
        proof {
            assert(r@ =~= spec_export_text(gs@.subrange(0, i + 1)));
        }
        i = i + 1;
    }
    proof {
        assert(gs@.subrange(0, gs@.len() as int) =~= gs@);
    }
    r
}

/// The full export report for the collected pairs: grouped by channel,
/// blocks in ascending channel order, identifiers in input order.
pub fn export_to_txt(pairs: &Vec<(String, String)>) -> (r: String)
    ensures
        exists|gs: Seq<ExportGroup>|
            #[trigger] grouped(gs, pairs@) && r@ == spec_export_text(gs),
{
    let gs = group_pairs(pairs);
    let r = render_export(&gs);
    proof {
        assert(grouped(gs@, pairs@) && r@ == spec_export_text(gs@));
    }
    r
}

} // verus!
