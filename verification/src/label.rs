use vstd::prelude::*;
use crate::text::has_prefix;
use crate::text::str_eq;

verus! {

/// The marker that begins the raw index label of a one-to-one conversation.
pub open spec fn dm_marker() -> Seq<char> {
    "Direct Message with "@
}

/// The infix that separates subject and container in a raw label.
pub open spec fn in_sep() -> Seq<char> {
    " in "@
}

/// Whether the four characters of the separator stand at position `i` of `s`.
pub open spec fn sep_at(s: Seq<char>, i: int) -> bool {
    0 <= i && i + 4 <= s.len() && s.subrange(i, i + 4) == in_sep()
}

/// The largest separator position at or below `i`, or -1 when there is none.
pub open spec fn last_sep_from(s: Seq<char>, i: int) -> int
    decreases i + 1,
{
    if i < 0 {
        -1
    } else if sep_at(s, i) {
        i
    } else {
        last_sep_from(s, i - 1)
    }
}

/// The position of the last separator of `s`, or -1 when there is none.
pub open spec fn last_sep(s: Seq<char>) -> int {
    last_sep_from(s, s.len() - 4)
}

/// Whether `s` begins with the direct-message marker.
pub open spec fn has_dm_marker(s: Seq<char>) -> bool {
    s.len() >= dm_marker().len() && s.subrange(0, dm_marker().len() as int) == dm_marker()
}

/// The label-normalization rule. A label that begins with the
/// direct-message marker keeps only the text after the marker; otherwise a
/// label of the shape `<subject> in <container>` (splitting at the last
/// separator) becomes `<container> - <subject>`; any other label is kept
/// verbatim.
pub open spec fn spec_update_value(s: Seq<char>) -> Seq<char> {
    if has_dm_marker(s) {
        s.skip(dm_marker().len() as int)
    } else if last_sep(s) >= 0 {
        s.skip(last_sep(s) + 4) + " - "@ + s.subrange(0, last_sep(s))
    } else {
        s
    }
}

proof fn lemma_last_sep_from_none(s: Seq<char>, hi: int, lo: int)
    requires
        lo <= hi,
        forall|j: int| lo < j <= hi ==> !sep_at(s, j),
    ensures
        last_sep_from(s, hi) == last_sep_from(s, lo),
    decreases hi - lo,
{
    if lo < hi {
        lemma_last_sep_from_none(s, hi - 1, lo);
    }
}

/// Rewrites one raw label as the normalization rule says.
pub fn update_value(value: &str) -> (r: String)
    ensures
        r@ == spec_update_value(value@),
{
    proof {
        reveal_strlit("Direct Message with ");
        reveal_strlit(" in ");
    }
    let n = value.unicode_len();
    if has_prefix(value, "Direct Message with ") {
        let rest = value.substring_char(20, n);
        proof {
            assert(value@.skip(20) =~= value@.subrange(20, n as int));
        }
        return rest.to_owned();
    }
    if n >= 4 {
        let mut i: usize = n - 4;
        loop
            invariant
                n == value@.len(),
                n >= 4,
                0 <= i <= n - 4,
                !has_dm_marker(value@),
                forall|j: int| i < j <= n - 4 ==> !sep_at(value@, j),
            decreases i,
        {
            let piece = value.substring_char(i, i + 4);
            if str_eq(piece, " in ") {
                proof {
                    assert(sep_at(value@, i as int));
                    lemma_last_sep_from_none(value@, n - 4, i as int);
                    assert(last_sep(value@) == i as int);
                }
                let tail = value.substring_char(i + 4, n).to_owned();
                let mid = tail.concat(" - ");
                let r = mid.concat(value.substring_char(0, i));
                proof {
                    assert(value@.skip(i + 4) =~= value@.subrange(i + 4, n as int));
                    assert(r@ =~= value@.skip(i as int + 4) + " - "@ + value@.subrange(
                        0, i as int));
                }
                return r;
            }
            if i == 0 {
                proof {
                    assert(!sep_at(value@, 0));
                    lemma_last_sep_from_none(value@, n - 4, -1);
                    assert(last_sep(value@) == -1);
                }
                return value.to_owned();
            }
            proof {
                assert(!sep_at(value@, i as int));
            }
            i = i - 1;
        }
    }
    proof {
        assert(last_sep(value@) == -1);
    }
    value.to_owned()
}

/// Normalizing twice is normalizing once, for every label whose normal form
/// matches neither rewrite pattern: the rule leaves such a form untouched.
pub proof fn lemma_update_value_idempotent(s: Seq<char>)
    requires
        !has_dm_marker(spec_update_value(s)),
        last_sep(spec_update_value(s)) < 0,
    ensures
        spec_update_value(spec_update_value(s)) == spec_update_value(s),
{
}

} // verus!
