//! Text building blocks: MQTT topic paths, comma-separated lists and
//! decimal numbers.

use vstd::prelude::*;

verus! {

/// Appends `tail` to `s` by `String::push_str`, which std documents as
/// appending the given string slice onto the end of the `String`.
#[verifier::external_body]
pub(crate) fn push_str(s: &mut String, tail: &str)
    ensures
        final(s)@ == old(s)@ + tail@,
{
    s.push_str(tail);
}

/// Appends `c` to `s` by `String::push`, which std documents as appending
/// the given `char` to the end of the `String`.
#[verifier::external_body]
pub(crate) fn push_char(s: &mut String, c: char)
    ensures
        final(s)@ == old(s)@.push(c),
{
    s.push(c);
}

/// The topic `parent/name`.
pub open spec fn child_topic(parent: Seq<char>, name: Seq<char>) -> Seq<char> {
    parent.push('/') + name
}

/// The parts joined with `sep` between each two neighbours.
pub open spec fn join(parts: Seq<Seq<char>>, sep: char) -> Seq<char>
    decreases parts.len(),
{
    if parts.len() == 0 {
        Seq::empty()
    } else if parts.len() == 1 {
        parts[0]
    } else {
        join(parts.drop_last(), sep).push(sep) + parts.last()
    }
}

/// The decimal digit for `d < 10`.
pub open spec fn decimal_digit(d: nat) -> char {
    if d == 0 {
        '0'
    } else if d == 1 {
        '1'
    } else if d == 2 {
        '2'
    } else if d == 3 {
        '3'
    } else if d == 4 {
        '4'
    } else if d == 5 {
        '5'
    } else if d == 6 {
        '6'
    } else if d == 7 {
        '7'
    } else if d == 8 {
        '8'
    } else {
        '9'
    }
}

/// The decimal notation of `n`, without sign or leading zeros.
pub open spec fn decimal(n: nat) -> Seq<char>
    decreases n,
{
    if n < 10 {
        seq![decimal_digit(n)]
    } else {
        decimal(n / 10).push(decimal_digit(n % 10))
    }
}

/// Builds the topic `parent/name`.
pub fn topic(parent: &str, name: &str) -> (res: String)
    ensures
        res@ == child_topic(parent@, name@),
        res@.len() == parent@.len() + 1 + name@.len(),
        res@.take(parent@.len() as int) == parent@,
        res@[parent@.len() as int] == '/',
        res@.skip(parent@.len() + 1int) == name@,
{
    proof { lemma_child_topic_shape(parent@, name@); }
    let mut res = parent.to_owned();
    push_char(&mut res, '/');
    push_str(&mut res, name);
    res
}

fn digit_char(d: u64) -> (c: char)
    requires
        d < 10,
    ensures
        c == decimal_digit(d as nat),
{
    if d == 0 {
        '0'
    } else if d == 1 {
        '1'
    } else if d == 2 {
        '2'
    } else if d == 3 {
        '3'
    } else if d == 4 {
        '4'
    } else if d == 5 {
        '5'
    } else if d == 6 {
        '6'
    } else if d == 7 {
        '7'
    } else if d == 8 {
        '8'
    } else {
        '9'
    }
}

/// Appends the decimal notation of `n` to `s`.
pub fn push_decimal(s: &mut String, n: u64)
    ensures
        final(s)@ == old(s)@ + decimal(n as nat),
    decreases n,
{
    if n >= 10 {
        push_decimal(s, n / 10);
    }
    push_char(s, digit_char(n % 10));
    assert(s@ =~= old(s)@ + decimal(n as nat));
}

/// The decimal notation of `n`, as `u64::to_string` writes it.
pub fn u64_to_decimal(n: u64) -> (res: String)
    ensures
        res@ == decimal(n as nat),
        res@.len() > 0,
        forall|i: int| 0 <= i < res@.len() ==> is_decimal_digit(#[trigger] res@[i]),
        digits_value(res@) == n,
        res@.len() > 1 ==> res@[0] != '0',
{
    proof { lemma_decimal_is_numeral(n as nat); }
    let mut res = String::new();
    push_decimal(&mut res, n);
    assert(res@ =~= decimal(n as nat));
    res
}

// ---------------------------------------------------------------------------
// Laws
// ---------------------------------------------------------------------------

/// `parent/name` is `parent`, one `/`, then the whole of `name`.
pub proof fn lemma_child_topic_shape(parent: Seq<char>, name: Seq<char>)
    ensures
        child_topic(parent, name).len() == parent.len() + 1 + name.len(),
        child_topic(parent, name).take(parent.len() as int) == parent,
        child_topic(parent, name)[parent.len() as int] == '/',
        child_topic(parent, name).skip(parent.len() + 1int) == name,
{
    let t = child_topic(parent, name);
    assert(t.take(parent.len() as int) =~= parent);
    assert(t.skip(parent.len() + 1int) =~= name);
}

/// Whether `c` is one of the digits `0` to `9`.
pub open spec fn is_decimal_digit(c: char) -> bool {
    '0' <= c && c <= '9'
}

/// The number that a string of decimal digits denotes, most significant
/// digit first.
pub open spec fn digits_value(s: Seq<char>) -> int
    decreases s.len(),
{
    if s.len() == 0 {
        0
    } else {
        digits_value(s.drop_last()) * 10 + ((s.last() as int) - ('0' as int))
    }
}

proof fn lemma_decimal_digit(d: nat)
    requires
        d < 10,
    ensures
        is_decimal_digit(decimal_digit(d)),
        (decimal_digit(d) as int) - ('0' as int) == d,
        d != 0 ==> decimal_digit(d) != '0',
{
}

/// `decimal(n)` is the base-10 numeral of `n`: a non-empty string of digits
/// that denotes `n`, with no leading zero.
pub proof fn lemma_decimal_is_numeral(n: nat)
    ensures
        decimal(n).len() > 0,
        forall|i: int| 0 <= i < decimal(n).len() ==> is_decimal_digit(#[trigger] decimal(n)[i]),
        digits_value(decimal(n)) == n,
        decimal(n).len() > 1 ==> decimal(n)[0] != '0',
        n >= 10 ==> decimal(n).len() > 1,
    decreases n,
{
    if n < 10 {
        lemma_decimal_digit(n);
        let s = decimal(n);
        assert(s.drop_last() =~= Seq::<char>::empty());
        assert(digits_value(s.drop_last()) == 0);
        assert(s.last() == decimal_digit(n));
    } else {
        lemma_decimal_is_numeral(n / 10);
        lemma_decimal_digit(n % 10);
        let s = decimal(n);
        let t = decimal(n / 10);
        assert(s.drop_last() =~= t);
        assert(s.last() == decimal_digit(n % 10));
        assert(digits_value(s) == digits_value(t) * 10 + ((decimal_digit(n % 10) as int) - ('0' as int)));
        assert(digits_value(t) == n / 10);
        assert((n / 10) * 10 + n % 10 == n);
        assert forall|i: int| 0 <= i < s.len() implies is_decimal_digit(#[trigger] s[i]) by {
            if i < t.len() {
                assert(s[i] == t[i]);
            }
        }
        assert(s[0] == t[0]);
        assert(n / 10 >= 1);
        if n / 10 < 10 {
            lemma_decimal_digit(n / 10);
            assert(t[0] == decimal_digit((n / 10) as nat));
        }
    }
}

/// The parts of `s` between the occurrences of `sep`, in order.
pub open spec fn split(s: Seq<char>, sep: char) -> Seq<Seq<char>>
    decreases s.len(),
{
    if s.len() == 0 {
        seq![Seq::empty()]
    } else {
        let r = split(s.drop_last(), sep);
        if s.last() == sep {
            r.push(Seq::empty())
        } else {
            r.update(r.len() - 1, r.last().push(s.last()))
        }
    }
}

proof fn lemma_split_nonempty(s: Seq<char>, sep: char)
    ensures
        split(s, sep).len() > 0,
    decreases s.len(),
{
    if s.len() > 0 {
        lemma_split_nonempty(s.drop_last(), sep);
    }
}

proof fn lemma_split_append(a: Seq<char>, b: Seq<char>, sep: char)
    requires
        !b.contains(sep),
    ensures
        split(a + b, sep) == split(a, sep).update(split(a, sep).len() - 1, split(a, sep).last() + b),
    decreases b.len(),
{
    lemma_split_nonempty(a, sep);
    let r = split(a, sep);
    if b.len() == 0 {
        assert(a + b =~= a);
        assert(r.last() + b =~= r.last());
        assert(r.update(r.len() - 1, r.last() + b) =~= r);
    } else {
        let b0 = b.drop_last();
        assert forall|i: int| 0 <= i < b0.len() implies b0[i] != sep by {
            assert(b[i] == b0[i]);
        }
        assert(!b0.contains(sep));
        lemma_split_append(a, b0, sep);
        assert((a + b).drop_last() =~= a + b0);
        assert((a + b).last() == b.last());
        assert(b.last() != sep) by {
            assert(b[b.len() - 1] == b.last());
        }
        let r0 = split(a + b0, sep);
        assert(r0 == r.update(r.len() - 1, r.last() + b0));
        assert(r0.last().push(b.last()) =~= r.last() + b);
        assert(r0.update(r0.len() - 1, r0.last().push(b.last())) =~= r.update(r.len() - 1, r.last() + b));
    }
}

/// Splitting a join on its separator gives back the parts, when no part
/// holds the separator.
pub proof fn lemma_split_join(parts: Seq<Seq<char>>, sep: char)
    requires
        parts.len() > 0,
        forall|i: int| 0 <= i < parts.len() ==> !(#[trigger] parts[i]).contains(sep),
    ensures
        split(join(parts, sep), sep) == parts,
    decreases parts.len(),
{
    let e = Seq::<char>::empty();
    if parts.len() == 1 {
        assert(!parts[0].contains(sep));
        lemma_split_append(e, parts[0], sep);
        assert(e + parts[0] =~= parts[0]);
        assert(split(e, sep) =~= seq![e]);
        assert(seq![e].update(0, e + parts[0]) =~= parts);
    } else {
        let dl = parts.drop_last();
        assert forall|i: int| 0 <= i < dl.len() implies !(#[trigger] dl[i]).contains(sep) by {
            assert(dl[i] == parts[i]);
        }
        lemma_split_join(dl, sep);
        let j = join(dl, sep);
        let last = parts.last();
        assert(!last.contains(sep)) by {
            assert(parts[parts.len() - 1] == last);
        }
        lemma_split_append(j.push(sep), last, sep);
        assert(j.push(sep).drop_last() =~= j);
        assert(split(j.push(sep), sep) == dl.push(e));
        assert(e + last =~= last);
        assert(dl.push(e).update(dl.len() as int, e + last) =~= parts);
    }
}

} // verus!
