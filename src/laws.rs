use vstd::prelude::*;
use crate::access::{
    boolean_of, boolean_text, is_invocation, string_text, Action, Invocation,
};
use crate::text::{
    i32_of, integer_text, is_digit, is_value_char, lemma_integer_round_trip,
    lemma_numeral_round_trip, numeral_of, raw_value_of, u32_of,
};

verus! {

/// What the tool prints when asked for a key whose value was last written as
/// `text`: that text on a line of its own.
pub open spec fn read_back(text: Seq<char>) -> Seq<char> {
    text.push('\n')
}

/// Dropping quotes and line breaks from two texts one after the other is
/// dropping them from each.
pub proof fn lemma_raw_value_concat(a: Seq<char>, b: Seq<char>)
    ensures
        raw_value_of(a + b) == raw_value_of(a) + raw_value_of(b),
    decreases b.len(),
{
    if b.len() == 0 {
        assert(a + b =~= a);
        assert(raw_value_of(a) + raw_value_of(b) =~= raw_value_of(a));
    } else {
        assert((a + b).drop_last() =~= a + b.drop_last());
        assert((a + b).last() == b.last());
        lemma_raw_value_concat(a, b.drop_last());
        if is_value_char(b.last()) {
            assert(raw_value_of(a) + raw_value_of(b) =~= (raw_value_of(a) + raw_value_of(
                b.drop_last(),
            )).push(b.last()));
        }
    }
}

/// A text without quotes or line breaks is read back as it is.
pub proof fn lemma_raw_value_plain(t: Seq<char>)
    requires
        forall|i: int| 0 <= i < t.len() ==> #[trigger] is_value_char(t[i]),
    ensures
        raw_value_of(t) == t,
    decreases t.len(),
{
    if t.len() > 0 {
        assert(is_value_char(t[t.len() - 1]));
        lemma_raw_value_plain(t.drop_last());
        assert(t.drop_last().push(t.last()) =~= t);
    }
}

/// The line break after a printed value is not part of it.
pub proof fn lemma_read_back(t: Seq<char>)
    ensures
        raw_value_of(read_back(t)) == raw_value_of(t),
{
    assert(read_back(t).drop_last() =~= t);
}

/// Reading a key back after writing a boolean to it gives that boolean.
pub proof fn law_boolean_round_trip(inv: Invocation, key: Seq<char>, v: bool)
    requires
        is_invocation(inv, Action::Write, key, Some(boolean_text(v))),
    ensures
        inv.value matches Some(t) && boolean_of(read_back(t@)) == v,
{
    reveal_strlit("true");
    reveal_strlit("false");
    let t = boolean_text(v);
    lemma_read_back(t);
    lemma_raw_value_plain(t);
}

/// Reading a key back after writing a string to it gives the string with its
/// quotes and line breaks removed, and so the string itself where it has none.
pub proof fn law_string_round_trip(inv: Invocation, key: Seq<char>, v: Seq<char>)
    requires
        is_invocation(inv, Action::Write, key, Some(string_text(v))),
    ensures
        inv.value matches Some(t) && raw_value_of(read_back(t@)) == raw_value_of(v),
        (forall|i: int| 0 <= i < v.len() ==> #[trigger] is_value_char(v[i])) ==> raw_value_of(
            read_back(string_text(v)),
        ) == v,
{
    let q = seq!['\''];
    lemma_read_back(string_text(v));
    lemma_raw_value_concat(q + v, q);
    lemma_raw_value_concat(q, v);
    assert(q.drop_last() =~= Seq::<char>::empty());
    assert(raw_value_of(Seq::<char>::empty()) == Seq::<char>::empty());
    assert(!is_value_char(q.last()));
    assert(raw_value_of(q) =~= Seq::<char>::empty());
    if forall|i: int| 0 <= i < v.len() ==> #[trigger] is_value_char(v[i]) {
        lemma_raw_value_plain(v);
    }
}

/// Reading a key back after writing a signed integer to it gives that integer.
pub proof fn law_int_round_trip(inv: Invocation, key: Seq<char>, n: i32)
    requires
        is_invocation(inv, Action::Write, key, Some(integer_text(n as int))),
    ensures
        inv.value matches Some(t) && i32_of(raw_value_of(read_back(t@))) == Some(n),
{
    let t = integer_text(n as int);
    let m: nat = if n < 0 { (-n) as nat } else { n as nat };
    lemma_numeral_round_trip(m);
    assert forall|i: int| 0 <= i < t.len() implies #[trigger] is_value_char(t[i]) by {
        if n < 0 && i > 0 {
            assert(t[i] == numeral_of(m)[i - 1]);
            assert(is_digit(numeral_of(m)[i - 1]));
        } else if n >= 0 {
            assert(is_digit(numeral_of(m)[i]));
        }
    }
    lemma_read_back(t);
    lemma_raw_value_plain(t);
    lemma_integer_round_trip(n as int, true);
}

/// Reading a key back after writing an unsigned integer to it gives that integer.
pub proof fn law_uint_round_trip(inv: Invocation, key: Seq<char>, n: u32)
    requires
        is_invocation(inv, Action::Write, key, Some(numeral_of(n as nat))),
    ensures
        inv.value matches Some(t) && u32_of(raw_value_of(read_back(t@))) == Some(n),
{
    let t = numeral_of(n as nat);
    lemma_numeral_round_trip(n as nat);
    assert forall|i: int| 0 <= i < t.len() implies #[trigger] is_value_char(t[i]) by {
        assert(is_digit(t[i]));
    }
    lemma_read_back(t);
    lemma_raw_value_plain(t);
    lemma_integer_round_trip(n as int, false);
    assert(integer_text(n as int) == t);
}

} // verus!
