use vstd::prelude::*;

verus! {

/// The value of a decimal digit character.
pub open spec fn digit_value(c: char) -> int {
    c as int - '0' as int
}

pub open spec fn is_digit(c: char) -> bool {
    '0' <= c && c <= '9'
}

/// The character that writes the digit `d`.
pub open spec fn digit_char(d: int) -> char {
    ((d + 48) as u8) as char
}

/// A non-empty run of ASCII decimal digits.
pub open spec fn is_numeral(d: Seq<char>) -> bool {
    d.len() > 0 && forall|i: int| 0 <= i < d.len() ==> #[trigger] is_digit(d[i])
}

/// The number that a run of decimal digits writes, most significant first.
pub open spec fn numeral_value(d: Seq<char>) -> int
    decreases d.len(),
{
    if d.len() == 0 {
        0
    } else {
        10 * numeral_value(d.drop_last()) + digit_value(d.last())
    }
}

/// The decimal numeral of `n`, without leading zeros.
pub open spec fn numeral_of(n: nat) -> Seq<char>
    decreases n,
{
    if n < 10 {
        seq![digit_char(n as int)]
    } else {
        numeral_of(n / 10).push(digit_char((n % 10) as int))
    }
}

/// The integer that `s` writes: an optional sign and a numeral. A minus sign is
/// accepted only where `signed` holds.
pub open spec fn integer_value(s: Seq<char>, signed: bool) -> Option<int> {
    if s.len() > 0 && s[0] == '-' && signed && is_numeral(s.drop_first()) {
        Some(-numeral_value(s.drop_first()))
    } else if s.len() > 0 && s[0] == '+' && is_numeral(s.drop_first()) {
        Some(numeral_value(s.drop_first()))
    } else if is_numeral(s) {
        Some(numeral_value(s))
    } else {
        None
    }
}

/// The signed 32-bit integer that `s` writes, if it writes one in range.
pub open spec fn i32_of(s: Seq<char>) -> Option<i32> {
    match integer_value(s, true) {
        Some(n) => if i32::MIN <= n <= i32::MAX {
            Some(n as i32)
        } else {
            None
        },
        None => None,
    }
}

/// The unsigned 32-bit integer that `s` writes, if it writes one in range.
pub open spec fn u32_of(s: Seq<char>) -> Option<u32> {
    match integer_value(s, false) {
        Some(n) => if 0 <= n <= u32::MAX {
            Some(n as u32)
        } else {
            None
        },
        None => None,
    }
}

/// The decimal text of an integer: a minus sign for a negative one.
pub open spec fn integer_text(n: int) -> Seq<char> {
    if n < 0 {
        seq!['-'] + numeral_of((-n) as nat)
    } else {
        numeral_of(n as nat)
    }
}

pub proof fn lemma_numeral_value_nonneg(d: Seq<char>)
    requires
        forall|i: int| 0 <= i < d.len() ==> #[trigger] is_digit(d[i]),
    ensures
        numeral_value(d) >= 0,
    decreases d.len(),
{
    if d.len() > 0 {
        assert(is_digit(d[d.len() - 1]));
        lemma_numeral_value_nonneg(d.drop_last());
    }
}

/// A longer run of digits never writes a smaller number.
pub proof fn lemma_numeral_value_prefix(d: Seq<char>, j: int)
    requires
        0 <= j <= d.len(),
        forall|i: int| 0 <= i < d.len() ==> #[trigger] is_digit(d[i]),
    ensures
        numeral_value(d.subrange(0, j)) <= numeral_value(d),
    decreases d.len(),
{
    if j < d.len() {
        let p = d.drop_last();
        assert(p.subrange(0, j) =~= d.subrange(0, j));
        lemma_numeral_value_prefix(p, j);
        lemma_numeral_value_nonneg(p);
        assert(is_digit(d[d.len() - 1]));
    } else {
        assert(d.subrange(0, j) =~= d);
    }
}

/// Reading back the numeral of `n` gives `n`.
pub proof fn lemma_numeral_round_trip(n: nat)
    ensures
        is_numeral(numeral_of(n)),
        numeral_value(numeral_of(n)) == n,
    decreases n,
{
    if n >= 10 {
        lemma_numeral_round_trip(n / 10);
        let t = numeral_of(n);
        assert(t.drop_last() =~= numeral_of(n / 10));
        assert(digit_value(t.last()) == n % 10);
        assert(n == 10 * (n / 10) + n % 10);
        assert forall|i: int| 0 <= i < t.len() implies #[trigger] is_digit(t[i]) by {
            if i < t.len() - 1 {
                assert(t[i] == numeral_of(n / 10)[i]);
            }
        }
    } else {
        let t = numeral_of(n);
        assert(t.drop_last() =~= Seq::<char>::empty());
        assert(numeral_value(t.drop_last()) == 0);
        assert(is_digit(t[0]));
    }
}

/// Reading back the decimal text of `n` gives `n`.
pub proof fn lemma_integer_round_trip(n: int, signed: bool)
    requires
        signed || n >= 0,
    ensures
        integer_value(integer_text(n), signed) == Some(n),
{
    let t = integer_text(n);
    if n < 0 {
        lemma_numeral_round_trip((-n) as nat);
        assert(t.drop_first() =~= numeral_of((-n) as nat));
    } else {
        lemma_numeral_round_trip(n as nat);
        assert(is_digit(t[0]));
    }
}

fn digit_str(d: u64) -> (r: &'static str)
    requires
        d < 10,
    ensures
        r@ == seq![digit_char(d as int)],
{
    proof {
        reveal_strlit("0123456789");
    }
    "0123456789".substring_char(d as usize, d as usize + 1)
}

/// Writes `n` in decimal.
pub fn format_numeral(n: u64) -> (r: String)
    ensures
        r@ == numeral_of(n as nat),
{
    let mut m: u64 = n;
    let mut out = String::new();
    while m >= 10
        invariant
            numeral_of(n as nat) == numeral_of(m as nat) + out@,
        decreases m,
    {
        let d = digit_str(m % 10);
        let prefix = String::from_str(d);
        proof {
            assert(numeral_of(m as nat) == numeral_of((m / 10) as nat).push(
                digit_char((m % 10) as int),
            ));
            assert(numeral_of(m as nat) + out@ =~= numeral_of((m / 10) as nat) + (d@ + out@));
        }
        out = prefix.concat(out.as_str());
        m = m / 10;
    }
    let prefix = String::from_str(digit_str(m));
    let r = prefix.concat(out.as_str());
    r
}

/// Writes `n` in decimal, with a minus sign where it is negative.
pub fn format_i32(n: i32) -> (r: String)
    ensures
        r@ == integer_text(n as int),
{
    if n < 0 {
        let magnitude: u64 = (-(n as i64)) as u64;
        let digits = format_numeral(magnitude);
        let sign = String::from_str("-");
        proof {
            reveal_strlit("-");
        }
        sign.concat(digits.as_str())
    } else {
        format_numeral(n as u64)
    }
}

/// Reads the digits of `s` from `start` on, as long as the number stays at most
/// `limit`; `None` where they are no numeral or write a larger number.
fn parse_numeral(s: &str, start: usize, limit: u64) -> (r: Option<u64>)
    requires
        start <= s@.len(),
        limit <= u32::MAX + 1,
    ensures
        ({
            let d = s@.subrange(start as int, s@.len() as int);
            match r {
                Some(v) => is_numeral(d) && v == numeral_value(d) && v <= limit,
                None => !is_numeral(d) || numeral_value(d) > limit,
            }
        }),
{
    let n = s.unicode_len();
    if start == n {
        return None;
    }
    let mut acc: u64 = 0;
    let mut i: usize = start;
    while i < n
        invariant
            start <= i <= n,
            n == s@.len(),
            limit <= u32::MAX + 1,
            acc <= limit,
            acc == numeral_value(s@.subrange(start as int, i as int)),
            forall|k: int| start <= k < i ==> #[trigger] is_digit(s@[k]),
        decreases n - i,
    {
        let c = s.get_char(i);
        if c < '0' || c > '9' {
            proof {
                let d = s@.subrange(start as int, n as int);
                assert(!is_digit(d[i - start]));
            }
            return None;
        }
        let next: u64 = acc * 10 + (c as u64 - '0' as u64);
        proof {
            let p = s@.subrange(start as int, i as int + 1);
            assert(p.drop_last() =~= s@.subrange(start as int, i as int));
        }
        if next > limit {
            proof {
                let d = s@.subrange(start as int, n as int);
                let p = s@.subrange(start as int, i as int + 1);
                if is_numeral(d) {
                    assert(d.subrange(0, i - start + 1) =~= p);
                    lemma_numeral_value_prefix(d, i - start + 1);
                }
            }
            return None;
        }
        acc = next;
        i = i + 1;
    }
    Some(acc)
}

/// Reads a signed 32-bit integer in decimal.
pub fn parse_i32(s: &str) -> (r: Option<i32>)
    ensures
        r == i32_of(s@),
{
    let n = s.unicode_len();
    if n > 0 && s.get_char(0) == '-' {
        assert(s@.subrange(1, s@.len() as int) =~= s@.drop_first());
        assert(!is_digit(s@[0]));
        match parse_numeral(s, 1, 0x8000_0000) {
            Some(v) => Some((-(v as i64)) as i32),
            None => None,
        }
    } else if n > 0 && s.get_char(0) == '+' {
        assert(s@.subrange(1, s@.len() as int) =~= s@.drop_first());
        assert(!is_digit(s@[0]));
        match parse_numeral(s, 1, 0x7fff_ffff) {
            Some(v) => Some(v as i32),
            None => None,
        }
    } else {
        assert(s@.subrange(0, s@.len() as int) =~= s@);
        match parse_numeral(s, 0, 0x7fff_ffff) {
            Some(v) => Some(v as i32),
            None => None,
        }
    }
}

/// Reads an unsigned 32-bit integer in decimal.
pub fn parse_u32(s: &str) -> (r: Option<u32>)
    ensures
        r == u32_of(s@),
{
    let n = s.unicode_len();
    if n > 0 && s.get_char(0) == '+' {
        assert(s@.subrange(1, s@.len() as int) =~= s@.drop_first());
        assert(!is_digit(s@[0]));
        match parse_numeral(s, 1, 0xffff_ffff) {
            Some(v) => Some(v as u32),
            None => None,
        }
    } else {
        assert(s@.subrange(0, s@.len() as int) =~= s@);
        if n > 0 && s.get_char(0) == '-' {
            assert(!is_digit(s@[0]));
        }
        match parse_numeral(s, 0, 0xffff_ffff) {
            Some(v) => Some(v as u32),
            None => None,
        }
    }
}

/// Whether `c` is kept in a value read back from the store: quotes and line
/// breaks are dropped.
pub open spec fn is_value_char(c: char) -> bool {
    c != '\'' && c != '\n'
}

/// The text of a value as printed by the store, with every quote and line break
/// removed.
pub open spec fn raw_value_of(s: Seq<char>) -> Seq<char>
    decreases s.len(),
{
    if s.len() == 0 {
        s
    } else if is_value_char(s.last()) {
        raw_value_of(s.drop_last()).push(s.last())
    } else {
        raw_value_of(s.drop_last())
    }
}

/// `s` with every single quote removed.
pub open spec fn unquoted(s: Seq<char>) -> Seq<char>
    decreases s.len(),
{
    if s.len() == 0 {
        s
    } else if s.last() != '\'' {
        unquoted(s.drop_last()).push(s.last())
    } else {
        unquoted(s.drop_last())
    }
}

/// Removes every quote and line break from `s`.
pub fn strip_value(s: &str) -> (r: String)
    ensures
        r@ == raw_value_of(s@),
{
    let n = s.unicode_len();
    let mut out = String::new();
    let mut i: usize = 0;
    while i < n
        invariant
            i <= n,
            n == s@.len(),
            out@ == raw_value_of(s@.subrange(0, i as int)),
        decreases n - i,
    {
        let c = s.get_char(i);
        proof {
            let p = s@.subrange(0, i + 1);
            assert(p.drop_last() =~= s@.subrange(0, i as int));
            assert(p.last() == c);
        }
        if c != '\'' && c != '\n' {
            out.append(s.substring_char(i, i + 1));
        }
        i = i + 1;
    }
    assert(s@.subrange(0, n as int) =~= s@);
    out
}

/// Removes every single quote from `s`.
pub fn strip_quotes(s: &str) -> (r: String)
    ensures
        r@ == unquoted(s@),
{
    let n = s.unicode_len();
    let mut out = String::new();
    let mut i: usize = 0;
    while i < n
        invariant
            i <= n,
            n == s@.len(),
            out@ == unquoted(s@.subrange(0, i as int)),
        decreases n - i,
    {
        let c = s.get_char(i);
        proof {
            let p = s@.subrange(0, i + 1);
            assert(p.drop_last() =~= s@.subrange(0, i as int));
            assert(p.last() == c);
        }
        if c != '\'' {
            out.append(s.substring_char(i, i + 1));
        }
        i = i + 1;
    }
    assert(s@.subrange(0, n as int) =~= s@);
    out
}

} // verus!
