//! Text helpers: equality of strings, splitting on commas, decimal and hexadecimal
//! writing.

use vstd::prelude::*;
use crate::num::{decimal_value, digit_value, is_digit, parse_unsigned_spec};

verus! {

/// Appends one character (`String::push`).
#[verifier::external_body]
pub(crate) fn push_char(s: &mut String, c: char)
    ensures
        final(s)@ == old(s)@.push(c),
{
    s.push(c)
}

/// Whether two texts are the same.
pub fn str_eq(a: &str, b: &str) -> (res: bool)
    ensures
        res == (a@ == b@),
{
    let n = a.unicode_len();
    if n != b.unicode_len() {
        return false;
    }
    let mut i: usize = 0;
    while i < n
        invariant
            i <= n,
            n == a@.len(),
            n == b@.len(),
            forall|j: int| 0 <= j < i ==> a@[j] == b@[j],
        decreases n - i,
    {
        if a.get_char(i) != b.get_char(i) {
            return false;
        }
        i = i + 1;
    }
    assert(a@ =~= b@);
    true
}

/// The length of the longest prefix of `s` without a comma.
pub open spec fn comma_free_len(s: Seq<char>) -> nat
    decreases s.len(),
{
    if s.len() == 0 {
        0
    } else if s[0] == ',' {
        0
    } else {
        1 + comma_free_len(s.drop_first())
    }
}

/// The pieces of `s` between commas, as `str::split(',')` gives them.
pub open spec fn split_commas(s: Seq<char>) -> Seq<Seq<char>>
    decreases s.len(),
{
    let k = comma_free_len(s);
    if k >= s.len() {
        seq![s]
    } else {
        seq![s.take(k as int)] + split_commas(s.skip(k + 1int))
    }
}

/// How many commas `s` holds.
pub open spec fn comma_count(s: Seq<char>) -> nat
    decreases s.len(),
{
    if s.len() == 0 {
        0
    } else {
        (if s[0] == ',' { 1nat } else { 0nat }) + comma_count(s.drop_first())
    }
}

/// Where the first `k` characters hold no comma and the next one is a comma, the commas
/// of `s` are that one and those after it.
proof fn lemma_comma_count_split(s: Seq<char>, k: int)
    requires
        0 <= k <= s.len(),
        forall|i: int| 0 <= i < k ==> #[trigger] s[i] != ',',
    ensures
        k == s.len() ==> comma_count(s) == 0,
        k < s.len() && s[k] == ',' ==> comma_count(s) == 1 + comma_count(s.skip(k + 1)),
    decreases k,
{
    if k > 0 {
        let t = s.drop_first();
        assert forall|i: int| 0 <= i < k - 1 implies #[trigger] t[i] != ',' by {
            assert(t[i] == s[i + 1]);
        }
        lemma_comma_count_split(t, k - 1);
        if k < s.len() {
            assert(t[k - 1] == s[k]);
            assert(t.skip(k) =~= s.skip(k + 1));
        }
    } else if k < s.len() && s[k] == ',' {
        assert(s.drop_first() =~= s.skip(1));
    }
}

/// The pieces joined back with commas between them.
pub open spec fn join_commas(parts: Seq<Seq<char>>) -> Seq<char>
    decreases parts.len(),
{
    if parts.len() == 0 {
        Seq::empty()
    } else if parts.len() == 1 {
        parts[0]
    } else {
        parts[0] + seq![','] + join_commas(parts.drop_first())
    }
}

proof fn lemma_comma_free_len(s: Seq<char>, j: int)
    requires
        0 <= j <= s.len(),
        forall|i: int| 0 <= i < j ==> #[trigger] s[i] != ',',
    ensures
        comma_free_len(s) >= j,
        j == s.len() ==> comma_free_len(s) == j,
        j < s.len() && s[j] == ',' ==> comma_free_len(s) == j,
    decreases j,
{
    if j > 0 {
        let t = s.drop_first();
        assert forall|i: int| 0 <= i < j - 1 implies #[trigger] t[i] != ',' by {
            assert(t[i] == s[i + 1]);
        }
        lemma_comma_free_len(t, j - 1);
        if j < s.len() {
            assert(t[j - 1] == s[j]);
        }
    }
}

proof fn lemma_comma_free_len_facts(s: Seq<char>)
    ensures
        comma_free_len(s) <= s.len(),
        comma_free_len(s) < s.len() ==> s[comma_free_len(s) as int] == ',',
        forall|i: int| 0 <= i < comma_free_len(s) ==> #[trigger] s[i] != ',',
    decreases s.len(),
{
    if s.len() > 0 && s[0] != ',' {
        let t = s.drop_first();
        lemma_comma_free_len_facts(t);
        assert forall|i: int| 0 <= i < comma_free_len(s) implies #[trigger] s[i] != ',' by {
            if i > 0 {
                assert(s[i] == t[i - 1]);
            }
        }
    }
}

/// Splits `s` at every comma (`s.split(',')`).
pub fn split_commas_exec(s: &str) -> (res: Vec<String>)
    ensures
        res@.map_values(|p: String| p@) == split_commas(s@),
{
    let n = s.unicode_len();
    let mut res: Vec<String> = Vec::new();
    let mut start: usize = 0;
    let mut i: usize = 0;
    assert(s@.skip(0) =~= s@);
    while i < n
        invariant
            start <= i <= n,
            n == s@.len(),
            forall|j: int| start <= j < i ==> #[trigger] s@[j] != ',',
            res@.map_values(|p: String| p@) + split_commas(s@.skip(start as int)) == split_commas(s@),
        decreases n - i,
    {
        let c = s.get_char(i);
        if c == ',' {
            let piece = s.substring_char(start, i).to_owned();
            proof {
                let t = s@.skip(start as int);
                assert forall|j: int| 0 <= j < i - start implies #[trigger] t[j] != ',' by {
                    assert(t[j] == s@[start + j]);
                }
                assert(t[i - start] == ',');
                lemma_comma_free_len(t, i - start);
                assert(t.take(i - start) =~= s@.subrange(start as int, i as int));
                assert(t.skip(i - start + 1) =~= s@.skip(i + 1));
                let old_parts = res@.map_values(|p: String| p@);
                assert(split_commas(t) == seq![piece@] + split_commas(s@.skip(i + 1)));
                assert(res@.push(piece).map_values(|p: String| p@) =~= old_parts.push(piece@));
                assert(old_parts.push(piece@) + split_commas(s@.skip(i + 1)) =~= old_parts + (
                seq![piece@] + split_commas(s@.skip(i + 1))));
            }
            res.push(piece);
            start = i + 1;
        }
        i = i + 1;
    }
    let last = s.substring_char(start, n).to_owned();
    proof {
        let t = s@.skip(start as int);
        assert forall|j: int| 0 <= j < t.len() implies #[trigger] t[j] != ',' by {
            assert(t[j] == s@[start + j]);
        }
        lemma_comma_free_len(t, t.len() as int);
        assert(t =~= s@.subrange(start as int, n as int));
        let old_parts = res@.map_values(|p: String| p@);
        assert(res@.push(last).map_values(|p: String| p@) =~= old_parts.push(last@));
        assert(old_parts + seq![last@] =~= old_parts.push(last@));
    }
    res.push(last);
    res
}

/// Splitting at commas and joining the pieces with commas gives the text back; there is
/// one piece more than there are commas, and no piece holds a comma.
pub proof fn lemma_split_join(s: Seq<char>)
    ensures
        join_commas(split_commas(s)) == s,
        split_commas(s).len() >= 1,
        split_commas(s).len() == comma_count(s) + 1,
        forall|i: int, j: int|
            0 <= i < split_commas(s).len() && 0 <= j < split_commas(s)[i].len()
                ==> #[trigger] split_commas(s)[i][j] != ',',
    decreases s.len(),
{
    let k = comma_free_len(s);
    lemma_comma_free_len_facts(s);
    lemma_comma_count_split(s, k as int);
    if k >= s.len() {
        assert forall|i: int, j: int|
            0 <= i < split_commas(s).len() && 0 <= j < split_commas(s)[i].len()
                implies #[trigger] split_commas(s)[i][j] != ',' by {
            assert(split_commas(s)[i] == s);
        }
    } else {
        let rest = s.skip(k + 1int);
        lemma_split_join(rest);
        let parts = split_commas(s);
        assert(parts == seq![s.take(k as int)] + split_commas(rest));
        assert(parts.drop_first() =~= split_commas(rest));
        assert(parts.len() >= 2);
        assert(join_commas(parts) == parts[0] + seq![','] + join_commas(parts.drop_first()));
        assert(s =~= s.take(k as int) + seq![','] + rest);
        assert forall|i: int, j: int|
            0 <= i < parts.len() && 0 <= j < parts[i].len() implies #[trigger] parts[i][j] != ',' by {
            if i > 0 {
                assert(parts[i] == split_commas(rest)[i - 1]);
            }
        }
    }
}


/// The decimal digit character for `d < 10`.
pub open spec fn digit_char(d: nat) -> char {
    (d + 48) as char
}

/// `n` written in decimal, without leading zeros (`n.to_string()`).
pub open spec fn decimal_text(n: nat) -> Seq<char>
    decreases n,
{
    if n < 10 {
        seq![digit_char(n)]
    } else {
        decimal_text(n / 10).push(digit_char(n % 10))
    }
}

/// The lowercase hexadecimal digit character for `d < 16`.
pub open spec fn hex_char(d: nat) -> char {
    if d < 10 {
        (d + 48) as char
    } else {
        (d + 87) as char
    }
}

/// Each byte as two lowercase hexadecimal digits (`format!("{:02x}", b)`), in order.
pub open spec fn hex_text(bytes: Seq<u8>) -> Seq<char>
    decreases bytes.len(),
{
    if bytes.len() == 0 {
        Seq::empty()
    } else {
        hex_text(bytes.drop_last()) + seq![
            hex_char(bytes.last() as nat / 16),
            hex_char(bytes.last() as nat % 16),
        ]
    }
}

fn digit_to_char(d: u64) -> (c: char)
    requires
        d < 10,
    ensures
        c == digit_char(d as nat),
{
    let b: u8 = 48u8 + d as u8;
    b as char
}

fn nibble_to_char(d: u8) -> (c: char)
    requires
        d < 16,
    ensures
        c == hex_char(d as nat),
{
    if d < 10 {
        (48u8 + d) as char
    } else {
        (87u8 + d) as char
    }
}

/// Appends `n` in decimal.
pub fn push_decimal(s: &mut String, n: u64)
    ensures
        final(s)@ == old(s)@ + decimal_text(n as nat),
    decreases n,
{
    if n >= 10 {
        push_decimal(s, n / 10);
    }
    push_char(s, digit_to_char(n % 10));
    proof {
        if n >= 10 {
            assert(old(s)@ + decimal_text(n as nat) =~= old(s)@ + decimal_text((n / 10) as nat)
                + seq![digit_char((n % 10) as nat)]);
        }
    }
}

/// Appends every byte as two lowercase hexadecimal digits.
pub fn push_hex(s: &mut String, bytes: &[u8])
    ensures
        final(s)@ == old(s)@ + hex_text(bytes@),
{
    let n = bytes.len();
    let mut i: usize = 0;
    assert(bytes@.take(0) =~= Seq::<u8>::empty());
    assert(s@ =~= old(s)@ + hex_text(bytes@.take(0)));
    while i < n
        invariant
            i <= n,
            n == bytes@.len(),
            s@ == old(s)@ + hex_text(bytes@.take(i as int)),
        decreases n - i,
    {
        let b = bytes[i];
        push_char(s, nibble_to_char(b / 16));
        push_char(s, nibble_to_char(b % 16));
        proof {
            assert(bytes@.take(i + 1).drop_last() =~= bytes@.take(i as int));
            assert(s@ =~= old(s)@ + hex_text(bytes@.take(i + 1)));
        }
        i = i + 1;
    }
    assert(bytes@.take(n as int) =~= bytes@);
}

/// A number written in decimal reads back as the same number: every character is a
/// digit, the text is not empty and does not start with a sign.
pub proof fn lemma_decimal_text_reads_back(n: nat)
    ensures
        decimal_value(decimal_text(n)) == n,
        decimal_text(n).len() >= 1,
        forall|i: int| 0 <= i < decimal_text(n).len() ==> is_digit(#[trigger] decimal_text(n)[i]),
    decreases n,
{
    if n >= 10 {
        lemma_decimal_text_reads_back(n / 10);
        let t = decimal_text(n);
        assert(t.drop_last() =~= decimal_text(n / 10));
        assert(t.last() == digit_char(n % 10));
        assert(digit_value(t.last()) == n % 10);
        assert(decimal_value(t) == decimal_value(t.drop_last()) * 10 + digit_value(t.last()));
        assert forall|i: int| 0 <= i < t.len() implies is_digit(#[trigger] t[i]) by {
            if i < t.len() - 1 {
                assert(t[i] == decimal_text(n / 10)[i]);
            }
        }
    } else {
        let t = decimal_text(n);
        assert(t.drop_last() =~= Seq::<char>::empty());
        assert(decimal_value(t.drop_last()) == 0);
        assert(digit_value(t.last()) == n);
    }
}

/// Writing a number in decimal and reading it back with the rules of `str::parse` gives
/// the number again, for every number that fits the target type.
pub proof fn lemma_decimal_round_trip(n: nat, max: nat)
    requires
        n <= max,
    ensures
        parse_unsigned_spec(decimal_text(n), max) == Ok::<nat, crate::result::IntErrorKind>(n),
{
    let t = decimal_text(n);
    lemma_decimal_text_reads_back(n);
    crate::num::lemma_digit_prefix_len(t, t.len() as int);
    assert(t.take(t.len() as int) =~= t);
    assert(t[0] != '+' && t[0] != '-') by {
        assert(is_digit(t[0]));
    }
}

/// Every byte takes exactly two hexadecimal digits, and each is one of `0-9a-f`.
pub proof fn lemma_hex_text_shape(bytes: Seq<u8>)
    ensures
        hex_text(bytes).len() == 2 * bytes.len(),
        forall|i: int| 0 <= i < hex_text(bytes).len() ==> {
            let c = #[trigger] hex_text(bytes)[i];
            ('0' <= c && c <= '9') || ('a' <= c && c <= 'f')
        },
    decreases bytes.len(),
{
    if bytes.len() > 0 {
        let prev = bytes.drop_last();
        lemma_hex_text_shape(prev);
        let t = hex_text(bytes);
        assert forall|i: int| 0 <= i < t.len() implies {
            let c = #[trigger] t[i];
            ('0' <= c && c <= '9') || ('a' <= c && c <= 'f')
        } by {
            if i < t.len() - 2 {
                assert(t[i] == hex_text(prev)[i]);
            }
        }
    }
}

/// The value of a hexadecimal digit as a reader takes it: `0`-`9` are 0 to 9, `a`-`f` and
/// `A`-`F` are 10 to 15; any other character is no digit (-1).
pub open spec fn hex_digit_value(c: char) -> int {
    if '0' <= c && c <= '9' {
        c as int - '0' as int
    } else if 'a' <= c && c <= 'f' {
        c as int - 'a' as int + 10
    } else if 'A' <= c && c <= 'F' {
        c as int - 'A' as int + 10
    } else {
        -1
    }
}

/// Reading the hexadecimal text back gives the bytes: the two characters of the `i`-th
/// byte are its high and its low four bits, most significant first.
pub proof fn lemma_hex_text_reads_back(bytes: Seq<u8>)
    ensures
        hex_text(bytes).len() == 2 * bytes.len(),
        forall|i: int| 0 <= i < bytes.len() ==> {
            &&& hex_digit_value(hex_text(bytes)[2 * i]) == #[trigger] bytes[i] / 16
            &&& hex_digit_value(hex_text(bytes)[2 * i + 1]) == bytes[i] % 16
        },
    decreases bytes.len(),
{
    if bytes.len() > 0 {
        let prev = bytes.drop_last();
        lemma_hex_text_reads_back(prev);
        let t = hex_text(bytes);
        let n = bytes.len() - 1;
        assert(bytes.last() == bytes[n]);
        assert forall|i: int| 0 <= i < bytes.len() implies {
            &&& hex_digit_value(t[2 * i]) == #[trigger] bytes[i] / 16
            &&& hex_digit_value(t[2 * i + 1]) == bytes[i] % 16
        } by {
            if i < n {
                assert(prev[i] == bytes[i]);
                assert(t[2 * i] == hex_text(prev)[2 * i]);
                assert(t[2 * i + 1] == hex_text(prev)[2 * i + 1]);
            } else {
                assert(t[2 * i] == hex_char(bytes[n] as nat / 16));
                assert(t[2 * i + 1] == hex_char(bytes[n] as nat % 16));
            }
        }
    }
}

} // verus!
