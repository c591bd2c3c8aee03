//! Palette entries as text: 24-bit RGB values written as upper-case
//! hexadecimal with at least six digits, and read back in base 16.
use vstd::prelude::*;
use vstd::string::*;

verus! {

/// The hexadecimal digits, by value.
pub open spec fn hex_digits() -> Seq<char> {
    seq!['0', '1', '2', '3', '4', '5', '6', '7', '8', '9', 'A', 'B', 'C', 'D', 'E', 'F']
}

/// `n` in upper-case hexadecimal, padded with zeros to at least `min` digits.
pub open spec fn hex_upper(n: nat, min: nat) -> Seq<char>
    decreases n, min,
{
    if n == 0 && min == 0 {
        Seq::empty()
    } else {
        hex_upper(n / 16, if min > 0 { (min - 1) as nat } else { 0 }).push(hex_digits()[(n % 16) as int])
    }
}

/// The value of a hexadecimal digit of either case, or -1 for any other
/// character.
pub open spec fn digit_value(c: char) -> int {
    let u = c as u32;
    if 48 <= u <= 57 {
        u - 48
    } else if 65 <= u <= 70 {
        u - 55
    } else if 97 <= u <= 102 {
        u - 87
    } else {
        -1
    }
}

/// Whether every character of `s` is a hexadecimal digit.
pub open spec fn all_hex(s: Seq<char>) -> bool {
    forall|i: int| 0 <= i < s.len() ==> digit_value(#[trigger] s[i]) >= 0
}

/// The number that the hexadecimal digits `s` write.
pub open spec fn digits_value(s: Seq<char>) -> int
    decreases s.len(),
{
    if s.len() == 0 {
        0
    } else {
        digits_value(s.drop_last()) * 16 + digit_value(s.last())
    }
}

/// `s` without one leading `+`.
pub open spec fn unsigned_part(s: Seq<char>) -> Seq<char> {
    if s.len() > 0 && s[0] == '+' {
        s.drop_first()
    } else {
        s
    }
}

/// The value of `s` read as a base-16 `u32`: an optional `+`, then one or
/// more digits of either case, with a value that fits in 32 bits.
pub open spec fn parse_hex(s: Seq<char>) -> Option<u32> {
    let d = unsigned_part(s);
    if d.len() > 0 && all_hex(d) && digits_value(d) <= u32::MAX {
        Some(digits_value(d) as u32)
    } else {
        None
    }
}

/// Relies on `String::push`: the character is appended at the end.
#[verifier::external_body]
fn push_char(s: &mut String, c: char)
    ensures
        final(s)@ == old(s)@.push(c),
{
    s.push(c)
}

fn digit_char(v: u32) -> (c: char)
    requires
        v < 16,
    ensures
        c == hex_digits()[v as int],
{
    let digits: [char; 16] = [
        '0', '1', '2', '3', '4', '5', '6', '7', '8', '9', 'A', 'B', 'C', 'D', 'E', 'F',
    ];
    assert(digits@ =~= hex_digits());
    digits[v as usize]
}

fn char_value(c: char) -> (v: i32)
    ensures
        v == digit_value(c),
{
    let u = c as u32;
    if 48 <= u && u <= 57 {
        (u - 48) as i32
    } else if 65 <= u && u <= 70 {
        (u - 55) as i32
    } else if 97 <= u && u <= 102 {
        (u - 87) as i32
    } else {
        -1
    }
}

/// Writes a palette value as upper-case hexadecimal of at least six digits.
pub fn color_to_hex(color: u32) -> (r: String)
    ensures
        r@ == hex_upper(color as nat, 6),
{
    let mut m: u32 = color;
    let mut w: u32 = 6;
    let mut tail: Vec<char> = Vec::new();
    while m > 0 || w > 0
        invariant
            hex_upper(color as nat, 6) == hex_upper(m as nat, w as nat) + tail@,
        decreases m, w,
    {
        let d = digit_char(m % 16);
        let ghost before = tail@;
        tail.insert(0, d);
        assert(hex_upper(m as nat, w as nat) == hex_upper((m / 16) as nat, (if w > 0 { w - 1 } else { 0 }) as nat).push(d));
        assert(hex_upper(m as nat, w as nat) + before =~= hex_upper((m / 16) as nat, (if w > 0 { w - 1 } else { 0 }) as nat) + tail@);
        m = m / 16;
        if w > 0 {
            w = w - 1;
        }
    }
    assert(tail@ =~= hex_upper(color as nat, 6));
    let mut r = String::new();
    let mut i: usize = 0;
    while i < tail.len()
        invariant
            i <= tail.len(),
            r@ == tail@.take(i as int),
        decreases tail.len() - i,
    {
        push_char(&mut r, tail[i]);
        i = i + 1;
        assert(r@ =~= tail@.take(i as int));
    }
    assert(tail@.take(i as int) =~= tail@);
    r
}

proof fn lemma_digits_value_prefix(s: Seq<char>, k: int)
    requires
        0 <= k <= s.len(),
        all_hex(s),
    ensures
        digits_value(s) >= digits_value(s.take(k)),
        digits_value(s.take(k)) >= 0,
    decreases s.len(),
{
    if k == s.len() {
        assert(s.take(k) =~= s);
    }
    if s.len() > 0 {
        let d = s.drop_last();
        assert(all_hex(d)) by {
            assert forall|i: int| 0 <= i < d.len() implies digit_value(#[trigger] d[i]) >= 0 by {
                assert(d[i] == s[i]);
            }
        }
        assert(digit_value(s[s.len() - 1]) >= 0);
        if k < s.len() {
            lemma_digits_value_prefix(d, k);
            assert(d.take(k) =~= s.take(k));
        } else {
            lemma_digits_value_prefix(d, 0);
        }
    }
}

/// Reads a palette value written in base 16, as `u32::from_str_radix` with
/// radix 16 does; `None` where the text is no such number.
pub fn color_from_hex(s: &String) -> (r: Option<u32>)
    ensures
        r == parse_hex(s@),
{
    let text = s.as_str();
    let n = text.unicode_len();
    let ghost full = s@;
    let mut start: usize = 0;
    if n > 0 && text.get_char(0) == '+' {
        start = 1;
    }
    let ghost d = unsigned_part(full);
    assert(d =~= full.subrange(start as int, n as int));
    if start == n {
        return None;
    }
    let mut acc: u64 = 0;
    let mut i: usize = start;
    while i < n
        invariant
            start <= i <= n,
            n == full.len(),
            text@ == full,
            full == s@,
            d == unsigned_part(full),
            d == full.subrange(start as int, n as int),
            all_hex(d.take(i - start)),
            acc == digits_value(d.take(i - start)),
            acc <= u32::MAX,
        decreases n - i,
    {
        let c = text.get_char(i);
        let v = char_value(c);
        let ghost pre = d.take(i - start);
        let ghost next = d.take(i + 1 - start);
        assert(next.drop_last() =~= pre);
        assert(next.last() == c);
        if v < 0 {
            assert(!all_hex(d)) by {
                assert(d[i - start] == c);
            }
            return None;
        }
        acc = acc * 16 + v as u64;
        assert(all_hex(next)) by {
            assert forall|k: int| 0 <= k < next.len() implies digit_value(#[trigger] next[k]) >= 0 by {
                if k < pre.len() {
                    assert(next[k] == pre[k]);
                }
            }
        }
        if acc > 0xFFFF_FFFF {
            assert(digits_value(d) > u32::MAX || !all_hex(d)) by {
                if all_hex(d) {
                    lemma_digits_value_prefix(d, i + 1 - start);
                }
            }
            return None;
        }
        i = i + 1;
    }
    assert(d.take(n - start) =~= d);
    Some(acc as u32)
}

proof fn lemma_hex_upper(n: nat, min: nat)
    ensures
        all_hex(hex_upper(n, min)),
        digits_value(hex_upper(n, min)) == n,
        hex_upper(n, min).len() >= min,
        hex_upper(n, min).len() > 0 ==> hex_upper(n, min)[0] != '+',
    decreases n, min,
{
    if !(n == 0 && min == 0) {
        let m2: nat = if min > 0 { (min - 1) as nat } else { 0 };
        lemma_hex_upper(n / 16, m2);
        let p = hex_upper(n / 16, m2);
        let s = hex_upper(n, min);
        let dg = hex_digits()[(n % 16) as int];
        assert(s == p.push(dg));
        assert(s.drop_last() =~= p);
        assert(digit_value(dg) == n % 16) by {
            let v = n % 16;
            if v == 0 { assert(dg == '0'); } else if v == 1 { assert(dg == '1'); }
            else if v == 2 { assert(dg == '2'); } else if v == 3 { assert(dg == '3'); }
            else if v == 4 { assert(dg == '4'); } else if v == 5 { assert(dg == '5'); }
            else if v == 6 { assert(dg == '6'); } else if v == 7 { assert(dg == '7'); }
            else if v == 8 { assert(dg == '8'); } else if v == 9 { assert(dg == '9'); }
            else if v == 10 { assert(dg == 'A'); } else if v == 11 { assert(dg == 'B'); }
            else if v == 12 { assert(dg == 'C'); } else if v == 13 { assert(dg == 'D'); }
            else if v == 14 { assert(dg == 'E'); } else { assert(dg == 'F'); }
        }
        assert forall|i: int| 0 <= i < s.len() implies digit_value(#[trigger] s[i]) >= 0 by {
            if i < p.len() {
                assert(s[i] == p[i]);
            }
        }
        if p.len() > 0 {
            assert(s[0] == p[0]);
        } else {
            assert(s[0] == dg);
        }
    }
}

/// A palette value written as text reads back as the same value.
pub proof fn lemma_color_round_trip(color: u32)
    ensures
        parse_hex(hex_upper(color as nat, 6)) == Some(color),
{
    lemma_hex_upper(color as nat, 6);
}

} // verus!
