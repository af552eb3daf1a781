//! Text of znode timestamps and numbers.
use vstd::prelude::*;
use crate::znode::NodeStat;

verus! {

/// What chrono makes of a timestamp in milliseconds: the UTC date and time
/// as `YYYY-MM-DD HH:MM:SS`, or nothing where it is out of chrono's range.
pub uninterp spec fn utc_text(millis: i64) -> Option<Seq<char>>;

/// Calls chrono's `DateTime::from_timestamp_millis`, which reads a count
/// of milliseconds since 1970-01-01 00:00:00 UTC and gives `None` out of its
/// range (some 262,000 years either way), and formats the time it gives
/// with the pattern `%Y-%m-%d %H:%M:%S`. The result depends on `millis`
/// alone (UTC, no local time zone); it is named `utc_text`, and the range
/// and the calendar arithmetic are not spelled out here.
#[verifier::external_body]
fn utc_millis_text(millis: i64) -> (r: Option<String>)
    ensures
        match r {
            Some(s) => utc_text(millis) == Some(s@),
            None => utc_text(millis) is None,
        },
{
    match chrono::DateTime::from_timestamp_millis(millis) {
        Some(dt) => Some(dt.format("%Y-%m-%d %H:%M:%S").to_string()),
        None => None,
    }
}

/// The digit character for `d` in `0..10`.
pub open spec fn digit_char(d: int) -> char {
    if d == 0 {
        '0'
    } else if d == 1 {
        '1'
    } else if d == 2 {
        '2'
    } else if d == 3 {
        '3'
    } else if d == 4 {
        '4'
    } else if d == 5 {
        '5'
    } else if d == 6 {
        '6'
    } else if d == 7 {
        '7'
    } else if d == 8 {
        '8'
    } else {
        '9'
    }
}

/// The decimal digits of `n`, most significant first, without leading
/// zeros (`0` for zero).
pub open spec fn digits(n: nat) -> Seq<char>
    decreases n,
{
    if n < 10 {
        seq![digit_char(n as int)]
    } else {
        digits(n / 10).push(digit_char((n % 10) as int))
    }
}

/// `n` written in decimal, with a leading `-` where it is negative.
pub open spec fn decimal_text(n: int) -> Seq<char> {
    if n < 0 {
        seq!['-'] + digits((-n) as nat)
    } else {
        digits(n as nat)
    }
}

fn digit_str(d: u64) -> (r: &'static str)
    requires
        d < 10,
    ensures
        r@ == seq![digit_char(d as int)],
{
    proof {
        reveal_strlit("0");
        reveal_strlit("1");
        reveal_strlit("2");
        reveal_strlit("3");
        reveal_strlit("4");
        reveal_strlit("5");
        reveal_strlit("6");
        reveal_strlit("7");
        reveal_strlit("8");
        reveal_strlit("9");
    }
    if d == 0 {
        assert("0"@ =~= seq!['0']);
        "0"
    } else if d == 1 {
        assert("1"@ =~= seq!['1']);
        "1"
    } else if d == 2 {
        assert("2"@ =~= seq!['2']);
        "2"
    } else if d == 3 {
        assert("3"@ =~= seq!['3']);
        "3"
    } else if d == 4 {
        assert("4"@ =~= seq!['4']);
        "4"
    } else if d == 5 {
        assert("5"@ =~= seq!['5']);
        "5"
    } else if d == 6 {
        assert("6"@ =~= seq!['6']);
        "6"
    } else if d == 7 {
        assert("7"@ =~= seq!['7']);
        "7"
    } else if d == 8 {
        assert("8"@ =~= seq!['8']);
        "8"
    } else {
        assert("9"@ =~= seq!['9']);
        "9"
    }
}

/// Appends the decimal digits of `n` to `s`.
fn append_digits(s: &mut String, n: u64)
    ensures
        final(s)@ == old(s)@ + digits(n as nat),
    decreases n,
{
    if n < 10 {
        s.append(digit_str(n));
    } else {
        append_digits(s, n / 10);
        s.append(digit_str(n % 10));
        assert(digits(n as nat) == digits((n / 10) as nat).push(digit_char((n % 10) as int)));
    }
}

/// `n` in decimal.
pub fn decimal_string(n: i64) -> (r: String)
    ensures
        r@ == decimal_text(n as int),
{
    proof {
        reveal_strlit("-");
    }
    let mut s = String::new();
    if n < 0 {
        s.append("-");
        let m: u64 = if n == i64::MIN {
            9223372036854775808u64
        } else {
            (-n) as u64
        };
        append_digits(&mut s, m);
    } else {
        append_digits(&mut s, n as u64);
    }
    assert(s@ =~= decimal_text(n as int));
    s
}

/// A count in decimal.
pub fn count_string(n: u64) -> (r: String)
    ensures
        r@ == digits(n as nat),
{
    let mut s = String::new();
    append_digits(&mut s, n);
    assert(s@ =~= digits(n as nat));
    s
}

/// Text of a znode timestamp (milliseconds since the epoch): `N/A` for zero,
/// else the UTC date and time, or the number itself where it is out of
/// range for a date.
pub open spec fn timestamp_text(ts: i64) -> Seq<char> {
    if ts == 0 {
        "N/A"@
    } else {
        match utc_text(ts) {
            Some(t) => t,
            None => decimal_text(ts as int),
        }
    }
}

/// Text of a znode timestamp.
pub fn format_timestamp(ts: i64) -> (r: String)
    ensures
        r@ == timestamp_text(ts),
{
    if ts == 0 {
        return "N/A".to_owned();
    }
    match utc_millis_text(ts) {
        Some(t) => t,
        None => decimal_string(ts),
    }
}

/// The lower-case hexadecimal digit for `d` in `0..16`.
pub open spec fn hex_digit_char(d: int) -> char {
    if d < 10 {
        digit_char(d)
    } else if d == 10 {
        'a'
    } else if d == 11 {
        'b'
    } else if d == 12 {
        'c'
    } else if d == 13 {
        'd'
    } else if d == 14 {
        'e'
    } else {
        'f'
    }
}

/// The lower-case hexadecimal digits of `n`, most significant first,
/// without leading zeros (`0` for zero).
pub open spec fn hex_digits(n: nat) -> Seq<char>
    decreases n,
{
    if n < 16 {
        seq![hex_digit_char(n as int)]
    } else {
        hex_digits(n / 16).push(hex_digit_char((n % 16) as int))
    }
}

/// `n` as `0x` and its hexadecimal digits, a negative number taken in
/// two's complement on 64 bits.
pub open spec fn hex_text(n: i64) -> Seq<char> {
    let bits: nat = if n < 0 {
        (n + 0x1_0000_0000_0000_0000) as nat
    } else {
        n as nat
    };
    seq!['0', 'x'] + hex_digits(bits)
}

/// The value of a digit character read in base 16: `0`-`9` are 0 to 9,
/// `a`-`f` are 10 to 15 (by their character codes).
pub open spec fn hex_digit_value(c: char) -> int {
    if '0' <= c && c <= '9' {
        (c as int) - ('0' as int)
    } else {
        (c as int) - ('a' as int) + 10
    }
}

/// A character that is a lower-case hexadecimal digit.
pub open spec fn is_hex_digit(c: char) -> bool {
    ('0' <= c && c <= '9') || ('a' <= c && c <= 'f')
}

/// The number that a string of hexadecimal digits stands for.
pub open spec fn read_hex(s: Seq<char>) -> int
    decreases s.len(),
{
    if s.len() == 0 {
        0
    } else {
        read_hex(s.drop_last()) * 16 + hex_digit_value(s.last())
    }
}

/// The value of a digit character read in base 10.
pub open spec fn decimal_digit_value(c: char) -> int {
    (c as int) - ('0' as int)
}

/// The number that a string of decimal digits stands for.
pub open spec fn read_decimal(s: Seq<char>) -> int
    decreases s.len(),
{
    if s.len() == 0 {
        0
    } else {
        read_decimal(s.drop_last()) * 10 + decimal_digit_value(s.last())
    }
}

proof fn lemma_digit_char_value(d: int)
    requires
        0 <= d < 10,
    ensures
        '0' <= digit_char(d) <= '9',
        decimal_digit_value(digit_char(d)) == d,
{
}

proof fn lemma_hex_digit_char_value(d: int)
    requires
        0 <= d < 16,
    ensures
        is_hex_digit(hex_digit_char(d)),
        hex_digit_value(hex_digit_char(d)) == d,
{
    if d < 10 {
        lemma_digit_char_value(d);
    }
}

/// The hexadecimal digits of `n`, read back in base 16, give `n`; each is
/// a digit `0`-`9` or `a`-`f`, and there is no leading zero but for zero
/// itself.
pub proof fn lemma_hex_digits_read_back(n: nat)
    ensures
        read_hex(hex_digits(n)) == n,
        hex_digits(n).len() >= 1,
        forall|i: int| 0 <= i < hex_digits(n).len() ==> is_hex_digit(#[trigger] hex_digits(n)[i]),
        n > 0 ==> hex_digits(n)[0] != '0',
    decreases n,
{
    if n < 16 {
        lemma_hex_digit_char_value(n as int);
        let s = hex_digits(n);
        assert(s.drop_last() =~= Seq::<char>::empty());
        assert(read_hex(s.drop_last()) == 0);
        assert(read_hex(s) == read_hex(s.drop_last()) * 16 + hex_digit_value(s.last()));
        if n > 0 {
            assert(hex_digit_value(s[0]) == n);
        }
    } else {
        let q = n / 16;
        let r = n % 16;
        lemma_hex_digits_read_back(q);
        lemma_hex_digit_char_value(r as int);
        let s = hex_digits(n);
        assert(s == hex_digits(q).push(hex_digit_char(r as int)));
        assert(s.drop_last() =~= hex_digits(q));
        assert(read_hex(s) == read_hex(s.drop_last()) * 16 + hex_digit_value(s.last()));
        assert(q * 16 + r == n) by (nonlinear_arith)
            requires
                q == n / 16,
                r == n % 16,
        ;
        assert(s[0] == hex_digits(q)[0]);
        assert forall|i: int| 0 <= i < s.len() implies is_hex_digit(#[trigger] s[i]) by {
            if i < s.len() - 1 {
                assert(s[i] == hex_digits(q)[i]);
            }
        }
    }
}

/// The decimal digits of `n`, read back in base 10, give `n`; each is a
/// digit `0`-`9`, and there is no leading zero but for zero itself.
pub proof fn lemma_digits_read_back(n: nat)
    ensures
        read_decimal(digits(n)) == n,
        digits(n).len() >= 1,
        forall|i: int| 0 <= i < digits(n).len() ==> '0' <= #[trigger] digits(n)[i] <= '9',
        n > 0 ==> digits(n)[0] != '0',
    decreases n,
{
    if n < 10 {
        lemma_digit_char_value(n as int);
        let s = digits(n);
        assert(s.drop_last() =~= Seq::<char>::empty());
        assert(read_decimal(s.drop_last()) == 0);
        assert(read_decimal(s) == read_decimal(s.drop_last()) * 10 + decimal_digit_value(s.last()));
        if n > 0 {
            assert(decimal_digit_value(s[0]) == n);
        }
    } else {
        let q = n / 10;
        let r = n % 10;
        lemma_digits_read_back(q);
        lemma_digit_char_value(r as int);
        let s = digits(n);
        assert(s == digits(q).push(digit_char(r as int)));
        assert(s.drop_last() =~= digits(q));
        assert(read_decimal(s) == read_decimal(s.drop_last()) * 10 + decimal_digit_value(s.last()));
        assert(q * 10 + r == n) by (nonlinear_arith)
            requires
                q == n / 10,
                r == n % 10,
        ;
        assert(s[0] == digits(q)[0]);
        assert forall|i: int| 0 <= i < s.len() implies '0' <= #[trigger] s[i] <= '9' by {
            if i < s.len() - 1 {
                assert(s[i] == digits(q)[i]);
            }
        }
    }
}

/// The text of `n` in hexadecimal is `0x` and digits that, read back in
/// base 16, give `n`, or `n + 2^64` where `n` is negative.
pub proof fn lemma_hex_text_read_back(n: i64)
    ensures
        hex_text(n).len() >= 3,
        hex_text(n)[0] == '0',
        hex_text(n)[1] == 'x',
        read_hex(hex_text(n).subrange(2, hex_text(n).len() as int)) == if n < 0 {
            n + 0x1_0000_0000_0000_0000
        } else {
            n as int
        },
{
    let bits: nat = if n < 0 {
        (n + 0x1_0000_0000_0000_0000) as nat
    } else {
        n as nat
    };
    lemma_hex_digits_read_back(bits);
    assert(hex_text(n).subrange(2, hex_text(n).len() as int) =~= hex_digits(bits));
}

/// The decimal text of `n` is its digits, read back in base 10, after a
/// `-` where `n` is negative.
pub proof fn lemma_decimal_text_read_back(n: int)
    ensures
        n >= 0 ==> read_decimal(decimal_text(n)) == n,
        n < 0 ==> decimal_text(n)[0] == '-' && read_decimal(
            decimal_text(n).subrange(1, decimal_text(n).len() as int),
        ) == -n,
{
    if n >= 0 {
        lemma_digits_read_back(n as nat);
    } else {
        lemma_digits_read_back((-n) as nat);
        assert(decimal_text(n).subrange(1, decimal_text(n).len() as int) =~= digits((-n) as nat));
    }
}

fn hex_digit_str(d: u64) -> (r: &'static str)
    requires
        d < 16,
    ensures
        r@ == seq![hex_digit_char(d as int)],
{
    if d < 10 {
        digit_str(d)
    } else {
        proof {
            reveal_strlit("a");
            reveal_strlit("b");
            reveal_strlit("c");
            reveal_strlit("d");
            reveal_strlit("e");
            reveal_strlit("f");
        }
        if d == 10 {
            assert("a"@ =~= seq!['a']);
            "a"
        } else if d == 11 {
            assert("b"@ =~= seq!['b']);
            "b"
        } else if d == 12 {
            assert("c"@ =~= seq!['c']);
            "c"
        } else if d == 13 {
            assert("d"@ =~= seq!['d']);
            "d"
        } else if d == 14 {
            assert("e"@ =~= seq!['e']);
            "e"
        } else {
            assert("f"@ =~= seq!['f']);
            "f"
        }
    }
}

/// Appends the hexadecimal digits of `n` to `s`.
fn append_hex_digits(s: &mut String, n: u64)
    ensures
        final(s)@ == old(s)@ + hex_digits(n as nat),
    decreases n,
{
    if n < 16 {
        s.append(hex_digit_str(n));
    } else {
        append_hex_digits(s, n / 16);
        s.append(hex_digit_str(n % 16));
        assert(hex_digits(n as nat) == hex_digits((n / 16) as nat).push(
            hex_digit_char((n % 16) as int),
        ));
    }
}

/// `n` in hexadecimal after `0x`, as a transaction id or a session id is
/// shown.
pub fn hex_string(n: i64) -> (r: String)
    ensures
        r@ == hex_text(n),
{
    proof {
        reveal_strlit("0x");
    }
    let mut s = String::new();
    s.append("0x");
    let bits: u64 = if n < 0 {
        let below: i64 = -(n + 1);
        u64::MAX - (below as u64)
    } else {
        n as u64
    };
    append_hex_digits(&mut s, bits);
    assert(s@ =~= hex_text(n));
    s
}

/// The rows of the metadata table of a znode: each field's label and its
/// text (transaction and session ids in hexadecimal, times as dates,
/// counters in decimal).
pub open spec fn stat_text(st: NodeStat) -> Seq<(Seq<char>, Seq<char>)> {
    seq![
        ("czxid:"@, hex_text(st.czxid)),
        ("mzxid:"@, hex_text(st.mzxid)),
        ("ctime:"@, timestamp_text(st.ctime)),
        ("mtime:"@, timestamp_text(st.mtime)),
        ("version:"@, decimal_text(st.version as int)),
        ("cversion:"@, decimal_text(st.cversion as int)),
        ("aversion:"@, decimal_text(st.aversion as int)),
        ("ephemeralOwner:"@, hex_text(st.ephemeral_owner)),
        ("dataLength:"@, decimal_text(st.data_length as int)),
        ("numChildren:"@, decimal_text(st.num_children as int)),
        ("pzxid:"@, hex_text(st.pzxid)),
    ]
}

/// The text of a pair of a label and a value.
pub open spec fn row_text(row: (String, String)) -> (Seq<char>, Seq<char>) {
    (row.0@, row.1@)
}

/// The rows of the metadata table of a znode.
pub fn stat_rows(st: &NodeStat) -> (r: Vec<(String, String)>)
    ensures
        r@.map_values(|row: (String, String)| row_text(row)) == stat_text(*st),
{
    let mut r: Vec<(String, String)> = Vec::new();
    r.push(("czxid:".to_owned(), hex_string(st.czxid)));
    r.push(("mzxid:".to_owned(), hex_string(st.mzxid)));
    r.push(("ctime:".to_owned(), format_timestamp(st.ctime)));
    r.push(("mtime:".to_owned(), format_timestamp(st.mtime)));
    r.push(("version:".to_owned(), decimal_string(st.version as i64)));
    r.push(("cversion:".to_owned(), decimal_string(st.cversion as i64)));
    r.push(("aversion:".to_owned(), decimal_string(st.aversion as i64)));
    r.push(("ephemeralOwner:".to_owned(), hex_string(st.ephemeral_owner)));
    r.push(("dataLength:".to_owned(), decimal_string(st.data_length as i64)));
    r.push(("numChildren:".to_owned(), decimal_string(st.num_children as i64)));
    r.push(("pzxid:".to_owned(), hex_string(st.pzxid)));
    assert(r@.map_values(|row: (String, String)| row_text(row)) =~= stat_text(*st));
    r
}

} // verus!
