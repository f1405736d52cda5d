use vstd::prelude::*;

verus! {

// ---------------------------------------------------------------------------
// Lexicographic order on character sequences, by code point.
// ---------------------------------------------------------------------------

/// `a` is lexicographically at or before `b`, comparing code points.
pub open spec fn lex_le(a: Seq<char>, b: Seq<char>) -> bool
    decreases a.len(),
{
    if a.len() == 0 {
        true
    } else if b.len() == 0 {
        false
    } else if (a[0] as u32) < (b[0] as u32) {
        true
    } else if (b[0] as u32) < (a[0] as u32) {
        false
    } else {
        lex_le(a.skip(1), b.skip(1))
    }
}

/// `a` is lexicographically strictly before `b`.
pub open spec fn lex_lt(a: Seq<char>, b: Seq<char>) -> bool {
    lex_le(a, b) && a != b
}

/// The lexicographic order relates every pair of sequences.
pub proof fn lemma_lex_le_total(a: Seq<char>, b: Seq<char>)
    ensures
        lex_le(a, b) || lex_le(b, a),
    decreases a.len(),
{
    if a.len() != 0 && b.len() != 0 && !((a[0] as u32) < (b[0] as u32)) && !((b[0] as u32) < (
    a[0] as u32)) {
        lemma_lex_le_total(a.skip(1), b.skip(1));
    }
}

/// Characters with the same code point are the same character.
proof fn lemma_char_code_eq(c1: char, c2: char)
    requires
        c1 as u32 == c2 as u32,
    ensures
        c1 == c2,
{
}

/// Sequences at or before each other are equal.
pub proof fn lemma_lex_le_antisymmetric(a: Seq<char>, b: Seq<char>)
    requires
        lex_le(a, b),
        lex_le(b, a),
    ensures
        a == b,
    decreases a.len(),
{
    if a.len() == 0 {
        assert(b.len() == 0);
        assert(a =~= b);
    } else {
        assert(b.len() != 0);
        if (a[0] as u32) < (b[0] as u32) {
            assert(!lex_le(b, a));
        }
        if (b[0] as u32) < (a[0] as u32) {
            assert(!lex_le(a, b));
        }
        assert(a[0] as u32 == b[0] as u32);
        lemma_char_code_eq(a[0], b[0]);
        lemma_lex_le_antisymmetric(a.skip(1), b.skip(1));
        assert forall|i: int| 0 <= i < a.len() implies a[i] == b[i] by {
            if i > 0 {
                assert(a.skip(1)[i - 1] == b.skip(1)[i - 1]);
            }
        }
        assert(a =~= b);
    }
}

/// The lexicographic order is transitive.
pub proof fn lemma_lex_le_transitive(a: Seq<char>, b: Seq<char>, c: Seq<char>)
    requires
        lex_le(a, b),
        lex_le(b, c),
    ensures
        lex_le(a, c),
    decreases a.len(),
{
    if a.len() != 0 {
        assert(b.len() != 0);
        assert(c.len() != 0);
        if !((a[0] as u32) < (c[0] as u32)) && !((c[0] as u32) < (a[0] as u32)) {
            assert(a[0] as u32 == b[0] as u32 && b[0] as u32 == c[0] as u32);
            lemma_char_code_eq(a[0], b[0]);
            lemma_char_code_eq(b[0], c[0]);
            lemma_lex_le_transitive(a.skip(1), b.skip(1), c.skip(1));
        }
    }
}

/// Whether `a@` and `b@` hold the same characters.
pub fn str_eq(a: &str, b: &str) -> (r: bool)
    ensures
        r == (a@ == b@),
{
    let sa: String = a.to_owned();
    let sb: String = b.to_owned();
    sa == sb
}

/// Lexicographic comparison of two strings, by code point.
pub fn str_le(a: &str, b: &str) -> (r: bool)
    ensures
        r == lex_le(a@, b@),
    decreases a@.len(),
{
    let an = a.unicode_len();
    let bn = b.unicode_len();
    if an == 0 {
        true
    } else if bn == 0 {
        false
    } else {
        let ca = a.get_char(0);
        let cb = b.get_char(0);
        if (ca as u32) < (cb as u32) {
            true
        } else if (cb as u32) < (ca as u32) {
            false
        } else {
            proof {
                assert(a@.subrange(1, an as int) =~= a@.skip(1));
                assert(b@.subrange(1, bn as int) =~= b@.skip(1));
            }
            str_le(a.substring_char(1, an), b.substring_char(1, bn))
        }
    }
}

/// Whether `s@` begins with the characters of `p@`.
pub fn has_prefix(s: &str, p: &str) -> (r: bool)
    ensures
        r == (s@.len() >= p@.len() && s@.subrange(0, p@.len() as int) == p@),
{
    let n = s.unicode_len();
    let m = p.unicode_len();
    if n < m {
        false
    } else {
        str_eq(s.substring_char(0, m), p)
    }
}

// ---------------------------------------------------------------------------
// Decimal digits: reading and writing unsigned values.
// ---------------------------------------------------------------------------

/// Whether `c` is one of the characters '0' through '9'.
pub open spec fn is_digit_char(c: char) -> bool {
    48 <= (c as u32) && (c as u32) <= 57
}

/// The numeric value of a digit character.
pub open spec fn digit_val(c: char) -> nat {
    ((c as u32) - 48) as nat
}

/// Whether every character of `s` is a decimal digit.
pub open spec fn all_digits(s: Seq<char>) -> bool {
    forall|i: int| 0 <= i < s.len() ==> is_digit_char(#[trigger] s[i])
}

/// The value of a sequence of decimal digits, most significant first.
pub open spec fn dec_val(s: Seq<char>) -> nat
    decreases s.len(),
{
    if s.len() == 0 {
        0
    } else {
        dec_val(s.drop_last()) * 10 + digit_val(s.last())
    }
}

/// The digit character for a value below ten.
pub open spec fn digit_char(d: nat) -> char {
    if d == 0 {
        '0'
    } else if d == 1 {
        '1'
    } else if d == 2 {
        '2'
    } else if d == 3 {
        '3'
    } else if d == 4 {
        '4'
    } else if d == 5 {
        '5'
    } else if d == 6 {
        '6'
    } else if d == 7 {
        '7'
    } else if d == 8 {
        '8'
    } else {
        '9'
    }
}

/// The canonical decimal rendering of `n`: no sign, no leading zero except
/// for zero itself.
pub open spec fn dec_str(n: nat) -> Seq<char>
    decreases n,
{
    if n < 10 {
        seq![digit_char(n)]
    } else {
        dec_str(n / 10).push(digit_char(n % 10))
    }
}

fn digit_string(d: u64) -> (r: String)
    requires
        d < 10,
    ensures
        r@ == seq![digit_char(d as nat)],
{
    let r: String = if d == 0 {
        proof { reveal_strlit("0"); }
        "0".to_owned()
    } else if d == 1 {
        proof { reveal_strlit("1"); }
        "1".to_owned()
    } else if d == 2 {
        proof { reveal_strlit("2"); }
        "2".to_owned()
    } else if d == 3 {
        proof { reveal_strlit("3"); }
        "3".to_owned()
    } else if d == 4 {
        proof { reveal_strlit("4"); }
        "4".to_owned()
    } else if d == 5 {
        proof { reveal_strlit("5"); }
        "5".to_owned()
    } else if d == 6 {
        proof { reveal_strlit("6"); }
        "6".to_owned()
    } else if d == 7 {
        proof { reveal_strlit("7"); }
        "7".to_owned()
    } else if d == 8 {
        proof { reveal_strlit("8"); }
        "8".to_owned()
    } else {
        proof { reveal_strlit("9"); }
        "9".to_owned()
    };
    proof {
        assert(r@ =~= seq![digit_char(d as nat)]);
    }
    r
}

/// Renders `n` in decimal.
pub fn u64_to_string(n: u64) -> (r: String)
    ensures
        r@ == dec_str(n as nat),
    decreases n,
{
    if n < 10 {
        digit_string(n)
    } else {
        let s = u64_to_string(n / 10);
        let d = digit_string(n % 10);
        let r = s.concat(d.as_str());
        proof {
            assert(r@ =~= dec_str((n / 10) as nat).push(digit_char((n % 10) as nat)));
        }
        r
    }
}

/// A longer digit string never has the smaller value: dropping trailing
/// digits cannot increase `dec_val`.
proof fn lemma_dec_val_prefix_le(s: Seq<char>, i: int)
    requires
        0 <= i <= s.len(),
    ensures
        dec_val(s.subrange(0, i)) <= dec_val(s),
    decreases s.len() - i,
{
    if i == s.len() {
        assert(s.subrange(0, i) =~= s);
    } else {
        let shorter = s.subrange(0, i);
        let longer = s.subrange(0, i + 1);
        assert(longer.drop_last() =~= shorter);
        assert(dec_val(longer) == dec_val(shorter) * 10 + digit_val(longer.last()));
        assert(dec_val(shorter) * 10 >= dec_val(shorter)) by (nonlinear_arith);
        lemma_dec_val_prefix_le(s, i + 1);
    }
}

/// Reads `s` as an unsigned decimal number: all characters must be digits,
/// the string must be non-empty, and the value must fit in 64 bits.
pub fn parse_u64(s: &str) -> (r: Option<u64>)
    ensures
        match r {
            Some(n) => s@.len() > 0 && all_digits(s@) && dec_val(s@) == n as nat,
            None => s@.len() == 0 || !all_digits(s@) || dec_val(s@) > u64::MAX,
        },
{
    let n = s.unicode_len();
    if n == 0 {
        return None;
    }
    let mut acc: u64 = 0;
    let mut i: usize = 0;
    while i < n
        invariant
            0 <= i <= n,
            n == s@.len(),
            all_digits(s@.subrange(0, i as int)),
            acc as nat == dec_val(s@.subrange(0, i as int)),
        decreases n - i,
    {
        let c = s.get_char(i);
        if !((48 <= c as u32) && (c as u32 <= 57)) {
            proof {
                assert(!is_digit_char(s@[i as int]));
            }
            return None;
        }
        let d: u64 = c as u64 - 48;
        proof {
            assert(s@.subrange(0, i + 1).drop_last() =~= s@.subrange(0, i as int));
            assert(s@.subrange(0, i + 1).last() == s@[i as int]);
        }
        let step = acc.checked_mul(10);
        match step {
            None => {
                proof {
                    assert(dec_val(s@.subrange(0, i + 1)) > u64::MAX);
                    lemma_dec_val_prefix_le(s@, i + 1);
                }
                return None;
            },
            Some(m) => {
                let sum = m.checked_add(d);
                match sum {
                    None => {
                        proof {
                            assert(dec_val(s@.subrange(0, i + 1)) > u64::MAX);
                            lemma_dec_val_prefix_le(s@, i + 1);
                        }
                        return None;
                    },
                    Some(v) => {
                        acc = v;
                    },
                }
            },
        }
        i = i + 1;
    }
    proof {
        assert(s@.subrange(0, n as int) =~= s@);
    }
    Some(acc)
}

// ---------------------------------------------------------------------------
// Fixed-width column formatting.
// ---------------------------------------------------------------------------

/// `n` space characters.
pub open spec fn spaces(n: nat) -> Seq<char>
    decreases n,
{
    if n == 0 {
        Seq::empty()
    } else {
        spaces((n - 1) as nat).push(' ')
    }
}

/// `s` left-aligned in a column of width `w`; text wider than the column is
/// kept whole.
pub open spec fn pad_right_spec(s: Seq<char>, w: nat) -> Seq<char> {
    if s.len() >= w {
        s
    } else {
        s + spaces((w - s.len()) as nat)
    }
}

/// `s` right-aligned in a column of width `w`; text wider than the column is
/// kept whole.
pub open spec fn pad_left_spec(s: Seq<char>, w: nat) -> Seq<char> {
    if s.len() >= w {
        s
    } else {
        spaces((w - s.len()) as nat) + s
    }
}

/// Left-aligns `s` in a column of `w` characters.
pub fn pad_right(s: &str, w: usize) -> (r: String)
    ensures
        r@ == pad_right_spec(s@, w as nat),
{
    let n = s.unicode_len();
    let mut out: String = s.to_owned();
    let mut k: usize = n;
    proof {
        assert(s@ + spaces(0) =~= s@);
    }
    while k < w
        invariant
            n == s@.len(),
            n <= k,
            n >= w ==> k == n,
            n < w ==> k <= w,
            out@ == s@ + spaces((k - n) as nat),
        decreases w - k,
    {
        proof { reveal_strlit(" "); }
        out.append(" ");
        proof {
            assert(out@ =~= s@ + spaces((k + 1 - n) as nat));
        }
        k = k + 1;
    }
    proof {
        if n >= w {
            assert(spaces(0) =~= Seq::<char>::empty());
            assert(out@ =~= pad_right_spec(s@, w as nat));
        }
    }
    out
}

/// Right-aligns `s` in a column of `w` characters.
pub fn pad_left(s: &str, w: usize) -> (r: String)
    ensures
        r@ == pad_left_spec(s@, w as nat),
{
    let n = s.unicode_len();
    let mut out: String = String::new();
    let mut k: usize = n;
    proof {
        assert(out@ =~= spaces(0));
    }
    while k < w
        invariant
            n == s@.len(),
            n <= k,
            n >= w ==> k == n,
            n < w ==> k <= w,
            out@ == spaces((k - n) as nat),
        decreases w - k,
    {
        proof { reveal_strlit(" "); }
        out.append(" ");
        proof {
            assert(out@ =~= spaces((k + 1 - n) as nat));
        }
        k = k + 1;
    }
    out.append(s);
    proof {
        if n >= w {
            assert(spaces(0) =~= Seq::<char>::empty());
            assert(out@ =~= pad_left_spec(s@, w as nat));
        }
    }
    out
}

/// `s` cut to `w` characters: text that does not fit keeps its first
/// `w - 3` characters and ends in an ellipsis.
pub open spec fn truncate_spec(s: Seq<char>, w: nat) -> Seq<char> {
    if s.len() > w {
        s.subrange(0, w as int - 3) + "..."@
    } else {
        s
    }
}

/// Cuts `s` to at most `w` characters, ending in an ellipsis when cut.
pub fn truncate_name(s: &str, w: usize) -> (r: String)
    requires
        w >= 3,
    ensures
        r@ == truncate_spec(s@, w as nat),
{
    let n = s.unicode_len();
    if n > w {
        let t: String = s.substring_char(0, w - 3).to_owned();
        t.concat("...")
    } else {
        s.to_owned()
    }
}

} // verus!
