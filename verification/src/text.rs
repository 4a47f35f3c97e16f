//! Small executable helpers for moving between `&str`, `Vec<char>` and
//! `String`. All line-oriented logic in this crate works over sequences of
//! characters, so these conversions are used throughout.

use vstd::prelude::*;

verus! {

/// Collects the characters of a string slice into a vector.
pub fn chars_of(s: &str) -> (r: Vec<char>)
    ensures
        r@ == s@,
{
    let n = s.unicode_len();
    let mut r: Vec<char> = Vec::new();
    let mut i: usize = 0;
    while i < n
        invariant
            n == s@.len(),
            i <= n,
            r@ == s@.take(i as int),
        decreases n - i,
    {
        let c = s.get_char(i);
        r.push(c);
        proof {
            assert(r@ =~= s@.take(i + 1));
        }
        i = i + 1;
    }
    proof {
        assert(s@.take(n as int) =~= s@);
    }
    r
}

/// Relies on `String: FromIterator<char>`: collecting an iterator of
/// characters builds the string holding exactly those characters in order.
#[verifier::external_body]
pub fn string_from_chars(v: &Vec<char>) -> (r: String)
    ensures
        r@ == v@,
{
    v.iter().collect()
}

/// Character-for-character equality of two string slices.
pub fn str_eq(a: &str, b: &str) -> (r: bool)
    ensures
        r == (a@ == b@),
{
    let n = a.unicode_len();
    if n != b.unicode_len() {
        proof {
            assert(a@ != b@);
        }
        return false;
    }
    let mut i: usize = 0;
    while i < n
        invariant
            n == a@.len(),
            n == b@.len(),
            i <= n,
            forall|j: int| 0 <= j < i ==> a@[j] == b@[j],
        decreases n - i,
    {
        if a.get_char(i) != b.get_char(i) {
            return false;
        }
        i = i + 1;
    }
    proof {
        assert(a@ =~= b@);
    }
    true
}

/// The character for one decimal digit.
pub open spec fn dec_digit(d: int) -> char {
    if d == 0 {
        '0'
    } else if d == 1 {
        '1'
    } else if d == 2 {
        '2'
    } else if d == 3 {
        '3'
    } else if d == 4 {
        '4'
    } else if d == 5 {
        '5'
    } else if d == 6 {
        '6'
    } else if d == 7 {
        '7'
    } else if d == 8 {
        '8'
    } else {
        '9'
    }
}

/// The decimal writing of `n`, most significant digit first, no sign and no
/// leading zero (except for `n == 0` itself).
pub open spec fn dec_str(n: nat) -> Seq<char>
    decreases n,
{
    if n < 10 {
        seq![dec_digit(n as int)]
    } else {
        dec_str(n / 10).push(dec_digit((n % 10) as int))
    }
}

fn digit_char(d: u64) -> (c: char)
    requires
        d < 10,
    ensures
        c == dec_digit(d as int),
{
    if d == 0 {
        '0'
    } else if d == 1 {
        '1'
    } else if d == 2 {
        '2'
    } else if d == 3 {
        '3'
    } else if d == 4 {
        '4'
    } else if d == 5 {
        '5'
    } else if d == 6 {
        '6'
    } else if d == 7 {
        '7'
    } else if d == 8 {
        '8'
    } else {
        '9'
    }
}

fn push_dec(n: u64, out: &mut Vec<char>)
    ensures
        final(out)@ == old(out)@ + dec_str(n as nat),
    decreases n,
{
    if n < 10 {
        out.push(digit_char(n));
        proof {
            assert(out@ =~= old(out)@ + dec_str(n as nat));
        }
    } else {
        push_dec(n / 10, out);
        out.push(digit_char(n % 10));
        proof {
            assert(out@ =~= old(out)@ + dec_str(n as nat));
        }
    }
}

/// Writes `n` in decimal.
pub fn u64_to_string(n: u64) -> (r: String)
    ensures
        r@ == dec_str(n as nat),
{
    let mut v: Vec<char> = Vec::new();
    push_dec(n, &mut v);
    proof {
        assert(v@ =~= dec_str(n as nat));
    }
    string_from_chars(&v)
}

/// An ASCII whitespace character: space, tab, or one of the ASCII line and
/// page separators.
pub open spec fn is_space(c: char) -> bool {
    c == ' ' || c == '\t' || c == '\n' || c == '\r' || c as u32 == 11 || c as u32 == 12
}

fn is_space_char(c: char) -> (r: bool)
    ensures
        r == is_space(c),
{
    let u = c as u32;
    u == 32 || u == 9 || u == 10 || u == 13 || u == 11 || u == 12
}

/// The words of `s`: its maximal runs of non-whitespace characters, in
/// order. Whitespace here is the ASCII whitespace set.
pub open spec fn split_ws(s: Seq<char>) -> Seq<Seq<char>>
    decreases s.len(),
{
    if s.len() == 0 {
        Seq::empty()
    } else if is_space(s[0]) {
        split_ws(s.drop_first())
    } else {
        let r = split_ws(s.drop_first());
        if s.len() == 1 || is_space(s[1]) {
            seq![seq![s[0]]] + r
        } else {
            seq![seq![s[0]] + r[0]] + r.skip(1)
        }
    }
}

/// A pending word joined onto the words of the text that follows it: nothing
/// when there is no pending word; a word of its own when the text opens with
/// whitespace or ends; the head of the first word otherwise.
spec fn join_ws(b: Seq<char>, s: Seq<char>) -> Seq<Seq<char>> {
    if b.len() == 0 {
        split_ws(s)
    } else if s.len() == 0 || is_space(s[0]) {
        seq![b] + split_ws(s)
    } else {
        seq![b + split_ws(s)[0]] + split_ws(s).skip(1)
    }
}

/// Splits `s` into its whitespace-separated words.
pub fn split_whitespace_vec(s: &str) -> (r: Vec<String>)
    ensures
        r@.map_values(|t: String| t@) == split_ws(s@),
{
    let ghost sv = s@;
    let n = s.unicode_len();
    let mut out: Vec<String> = Vec::new();
    let mut buf: Vec<char> = Vec::new();
    let mut i: usize = 0;
    proof {
        assert(sv.skip(0) =~= sv);
    }
    while i < n
        invariant
            sv == s@,
            n == sv.len(),
            i <= n,
            split_ws(sv) =~~= out@.map_values(|t: String| t@) + join_ws(
                buf@,
                sv.skip(i as int),
            ),
        decreases n - i,
    {
        let ghost rest = sv.skip(i as int);
        proof {
            assert(rest.drop_first() =~= sv.skip(i + 1));
            assert(rest[0] == sv[i as int]);
        }
        let c = s.get_char(i);
        if is_space_char(c) {
            if buf.len() > 0 {
                let ghost old_out = out@;
                let ghost old_buf = buf@;
                let w = string_from_chars(&buf);
                out.push(w);
                buf = Vec::new();
                proof {
                    assert(join_ws(old_buf, rest) == seq![old_buf] + split_ws(rest));
                    assert(split_ws(rest) == split_ws(sv.skip(i + 1)));
                    assert(out@.map_values(|t: String| t@) =~~= old_out.map_values(
                        |t: String| t@,
                    ) + seq![old_buf]);
                    assert(out@.map_values(|t: String| t@) + join_ws(buf@, sv.skip(i + 1)) =~~=
                    old_out.map_values(|t: String| t@) + join_ws(old_buf, rest));
                }
            } else {
                proof {
                    assert(join_ws(buf@, rest) == split_ws(rest));
                    assert(split_ws(rest) == split_ws(sv.skip(i + 1)));
                }
            }
        } else {
            proof {
                let r1 = split_ws(sv.skip(i + 1));
                if rest.len() == 1 || is_space(rest[1]) {
                    assert(split_ws(rest) == seq![seq![rest[0]]] + r1);
                    if i + 1 < n {
                        assert(sv.skip(i + 1)[0] == rest[1]);
                    }
                    assert(join_ws(buf@, rest) =~~= join_ws(buf@.push(c), sv.skip(i + 1))) by {
                        assert(buf@ + seq![c] =~= buf@.push(c));
                        if buf@.len() == 0 {
                            assert(seq![seq![c]] + r1 =~~= seq![buf@.push(c)] + r1);
                        }
                    }
                } else {
                    assert(sv.skip(i + 1)[0] == rest[1]);
                    assert(!is_space(sv.skip(i + 1)[0]));
                    assert(split_ws(rest) == seq![seq![rest[0]] + r1[0]] + r1.skip(1));
                    assert(join_ws(buf@, rest) =~~= join_ws(buf@.push(c), sv.skip(i + 1))) by {
                        assert(buf@ + (seq![c] + r1[0]) =~= buf@.push(c) + r1[0]);
                    }
                }
            }
            buf.push(c);
        }
        i = i + 1;
    }
    proof {
        assert(sv.skip(n as int) =~= Seq::<char>::empty());
    }
    if buf.len() > 0 {
        let w = string_from_chars(&buf);
        out.push(w);
        proof {
            assert(join_ws(buf@, sv.skip(n as int)) == seq![buf@] + split_ws(
                Seq::<char>::empty(),
            ));
            assert(out@.map_values(|t: String| t@) =~~= split_ws(sv));
        }
    } else {
        proof {
            assert(join_ws(buf@, sv.skip(n as int)) == split_ws(Seq::<char>::empty()));
            assert(out@.map_values(|t: String| t@) =~~= split_ws(sv));
        }
    }
    out
}

/// `p` opens `s`.
pub open spec fn has_prefix_seq(s: Seq<char>, p: Seq<char>) -> bool {
    s.len() >= p.len() && s.take(p.len() as int) == p
}

/// Whether `s` starts with `p`, character for character.
pub fn str_starts_with(s: &str, p: &str) -> (r: bool)
    ensures
        r == has_prefix_seq(s@, p@),
{
    let n = s.unicode_len();
    let m = p.unicode_len();
    if n < m {
        return false;
    }
    let mut j: usize = 0;
    while j < m
        invariant
            n == s@.len(),
            m == p@.len(),
            m <= n,
            j <= m,
            forall|k: int| 0 <= k < j ==> s@[k] == p@[k],
        decreases m - j,
    {
        if s.get_char(j) != p.get_char(j) {
            proof {
                assert(!has_prefix_seq(s@, p@)) by {
                    if has_prefix_seq(s@, p@) {
                        assert(s@.take(m as int)[j as int] == p@[j as int]);
                    }
                }
            }
            return false;
        }
        j = j + 1;
    }
    proof {
        assert(s@.take(m as int) =~= p@);
    }
    true
}

/// `p` occurs somewhere in `s` as a contiguous run.
pub open spec fn contains_seq(s: Seq<char>, p: Seq<char>) -> bool {
    exists|i: int|
        0 <= i <= s.len() - p.len() && #[trigger] s.subrange(i, i + p.len() as int) == p
}

/// Whether `p` occurs in `s` as a contiguous run of characters.
pub fn str_contains(s: &str, p: &str) -> (r: bool)
    ensures
        r == contains_seq(s@, p@),
{
    let n = s.unicode_len();
    let m = p.unicode_len();
    if m > n {
        return false;
    }
    if m == 0 {
        proof {
            assert(s@.subrange(0, 0 + p@.len() as int) =~= p@);
        }
        return true;
    }
    let sc = chars_of(s);
    let pc = chars_of(p);
    let mut i: usize = 0;
    while i <= n - m
        invariant
            n == s@.len(),
            m == p@.len(),
            1 <= m <= n,
            i <= n - m + 1,
            sc@ == s@,
            pc@ == p@,
            forall|i2: int|
                0 <= i2 < i ==> #[trigger] s@.subrange(i2, i2 + p@.len() as int) != p@,
        decreases n - i,
    {
        let mut j: usize = 0;
        let mut matched = true;
        while j < m
            invariant
                n == s@.len(),
                m == p@.len(),
                i + m <= n,
                j <= m,
                sc@ == s@,
                pc@ == p@,
                matched ==> forall|k: int| 0 <= k < j ==> s@[i + k] == p@[k],
                !matched ==> s@.subrange(i as int, i + p@.len() as int) != p@,
            decreases m - j,
        {
            if sc[i + j] != pc[j] {
                proof {
                    assert(s@.subrange(i as int, i + p@.len() as int)[j as int] != p@[j as int]);
                }
                matched = false;
                j = m;
            } else {
                j = j + 1;
            }
        }
        if matched {
            proof {
                assert(s@.subrange(i as int, i + p@.len() as int) =~= p@);
            }
            return true;
        }
        i = i + 1;
    }
    proof {
        assert(!contains_seq(s@, p@));
    }
    false
}

/// Every character is a decimal digit.
pub open spec fn all_digits(s: Seq<char>) -> bool {
    forall|i: int| 0 <= i < s.len() ==> crate::markup::is_digit(#[trigger] s[i])
}

/// The number a run of digits writes, most significant first.
pub open spec fn dec_val(s: Seq<char>) -> nat
    decreases s.len(),
{
    if s.len() == 0 {
        0
    } else {
        dec_val(s.drop_last()) * 10 + (if crate::markup::digit_val(s.last()) >= 0 {
            crate::markup::digit_val(s.last()) as nat
        } else {
            0
        })
    }
}

/// What parsing `s` as an unsigned 32-bit decimal number gives: its value if
/// `s` is a nonempty run of digits whose value fits, nothing otherwise.
pub open spec fn parse_u32_spec(s: Seq<char>) -> Option<u32> {
    if s.len() > 0 && all_digits(s) && dec_val(s) <= u32::MAX {
        Some(dec_val(s) as u32)
    } else {
        None
    }
}

proof fn lemma_dec_val_mono(s: Seq<char>, i: int)
    requires
        0 <= i <= s.len(),
    ensures
        dec_val(s.take(i)) <= dec_val(s),
    decreases s.len() - i,
{
    if i < s.len() {
        lemma_dec_val_mono(s, i + 1);
        assert(s.take(i + 1).drop_last() =~= s.take(i));
        assert(dec_val(s.take(i + 1)) == dec_val(s.take(i)) * 10 + (
        if crate::markup::digit_val(s.take(i + 1).last()) >= 0 {
            crate::markup::digit_val(s.take(i + 1).last()) as nat
        } else {
            0
        }));
        assert(dec_val(s.take(i)) <= dec_val(s.take(i + 1)));
    } else {
        assert(s.take(i) =~= s);
    }
}

/// Parses a decimal `u32`, rejecting anything but a nonempty digit run whose
/// value fits.
pub fn parse_u32(s: &str) -> (r: Option<u32>)
    ensures
        r == parse_u32_spec(s@),
{
    let n = s.unicode_len();
    if n == 0 {
        return None;
    }
    let mut acc: u32 = 0;
    let mut i: usize = 0;
    proof {
        assert(s@.take(0) =~= Seq::<char>::empty());
    }
    while i < n
        invariant
            n == s@.len(),
            i <= n,
            all_digits(s@.take(i as int)),
            acc == dec_val(s@.take(i as int)),
        decreases n - i,
    {
        let c = s.get_char(i);
        let u = c as u32;
        if !(48 <= u && u <= 57) {
            proof {
                assert(!all_digits(s@));
            }
            return None;
        }
        let d = u - 48;
        let wide: u64 = acc as u64 * 10 + d as u64;
        proof {
            assert(s@.take(i + 1).drop_last() =~= s@.take(i as int));
            assert(s@.take(i + 1).last() == s@[i as int]);
            assert(all_digits(s@.take(i + 1)));
            assert(wide == dec_val(s@.take(i + 1)));
        }
        if wide > 0xffff_ffff {
            proof {
                if all_digits(s@) {
                    lemma_dec_val_mono(s@, i + 1);
                    assert(dec_val(s@) > u32::MAX);
                }
            }
            return None;
        }
        acc = wide as u32;
        i = i + 1;
    }
    proof {
        assert(s@.take(n as int) =~= s@);
    }
    Some(acc)
}

} // verus!
