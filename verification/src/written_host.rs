//! A host as it is written, read back: a name, or an address.

use vstd::prelude::*;
use crate::chars::CharClass;
use crate::error::Trace;
use crate::grammar::{
    dotted_end, spec_dotted, spec_host, spec_ipv4, spec_single_label, then_dot, then_octet,
};
use crate::text::{all_in, decimal, has_at, lemma_run_before, lemma_run_len_bounds, run_len, stops};
use crate::url::HostView;
use crate::written::{
    ends_in_letters, host_of, host_text, is_host, is_labels, is_name, is_number, WrittenHost,
};
use crate::written_parts::lemma_number_written;

verus! {

/// `tail` is empty or starts with a character that is neither part of a
/// label nor a dot: a host that stands before it ends there.
pub open spec fn stops_host(tail: Seq<char>) -> bool {
    tail.len() == 0 || (!CharClass::Label.contains(tail[0]) && tail[0] != '.')
}

/// From the start of a label of a name on, the labels that a dot follows end
/// behind the last dot.
proof fn lemma_dotted_end_written(name: Seq<char>, tail: Seq<char>, dot: int, p: int)
    requires
        is_labels(name),
        ends_in_letters(name, dot),
        stops_host(tail),
        0 <= p <= dot,
        p == 0 || name[p - 1] == '.',
    ensures
        dotted_end((name + tail).skip(p)) == dot + 1 - p,
    decreases dot - p,
{
    let s = name + tail;
    let t = s.skip(p);
    let k = run_len(t, CharClass::Label) as int;
    lemma_run_len_bounds(t, CharClass::Label);
    assert(t[0] == name[p]);
    assert(name[p] != '.') by {
        if p > 0 {
            assert(!(name[p - 1] == '.' && name[p] == '.'));
        }
    }
    assert(CharClass::Label.contains(name[p]));
    assert(k >= 1);
    if p + k > dot {
        assert(t.take(k)[dot - p] == name[dot]);
        assert(false);
    }
    assert(t[k] == name[p + k]);
    assert(name[p + k] == '.');
    assert(t.skip(k + 1) =~= s.skip(p + k + 1));
    if p + k == dot {
        let letters = name.skip(dot + 1);
        assert(s.skip(dot + 1) =~= letters + tail);
        assert forall|i: int| 0 <= i < letters.len() implies CharClass::Label.contains(
            #[trigger] letters[i],
        ) by {
            assert(letters[i] == name[dot + 1 + i]);
        }
        lemma_run_before(letters, tail, CharClass::Label);
        lemma_label_end(letters, tail);
    } else {
        lemma_dotted_end_written(name, tail, dot, p + k + 1);
    }
}

/// A label that no dot follows is not one of the labels that a dot follows.
proof fn lemma_label_end(label: Seq<char>, tail: Seq<char>)
    requires
        all_in(label, CharClass::Label),
        stops_host(tail),
    ensures
        dotted_end(label + tail) == 0,
{
    lemma_run_before(label, tail, CharClass::Label);
    if tail.len() > 0 {
        assert((label + tail)[label.len() as int] == tail[0]);
    }
}

/// A label with a dot behind it is the first of the labels that a dot
/// follows.
proof fn lemma_label_and_dot(label: Seq<char>, behind: Seq<char>)
    requires
        label.len() > 0,
        all_in(label, CharClass::Label),
    ensures
        dotted_end(label + (seq!['.'] + behind)) == label.len() + 1 + dotted_end(behind),
{
    let after = seq!['.'] + behind;
    let s = label + after;
    lemma_run_before(label, after, CharClass::Label);
    assert(s[label.len() as int] == '.');
    assert(s.skip(label.len() as int + 1) =~= behind);
}

/// The digits of an address are characters of a label.
proof fn lemma_digits_are_label(digits: Seq<char>)
    requires
        all_in(digits, CharClass::Digit),
    ensures
        all_in(digits, CharClass::Label),
        all_in(digits, CharClass::Alpha) ==> digits.len() == 0,
{
    assert forall|i: int| 0 <= i < digits.len() implies CharClass::Label.contains(
        #[trigger] digits[i],
    ) by {
        assert(CharClass::Digit.contains(digits[i]));
    }
    if digits.len() > 0 {
        assert(CharClass::Digit.contains(digits[0]));
    }
}

/// A name as it is written is read as it is, where what follows it cannot
/// belong to a host.
pub proof fn lemma_name_written(name: Seq<char>, tail: Seq<char>)
    requires
        is_name(name),
        stops_host(tail),
    ensures
        spec_host(name + tail) == Ok::<_, Trace>(
            (HostView::HOST(name), name.len() as int),
        ),
{
    reveal(spec_host);
    let s = name + tail;
    let n = name.len() as int;
    assert(s.take(n) =~= name);
    assert(s.skip(0) =~= s);
    if exists|dot: int| ends_in_letters(name, dot) {
        let dot = choose|dot: int| ends_in_letters(name, dot);
        lemma_dotted_end_written(name, tail, dot, 0);
        let letters = name.skip(dot + 1);
        assert(s.skip(dot + 1) =~= letters + tail);
        assert forall|i: int| 0 <= i < letters.len() implies CharClass::Alpha.contains(
            #[trigger] letters[i],
        ) by {
            assert(letters[i] == name[dot + 1 + i]);
        }
        lemma_run_before(letters, tail, CharClass::Alpha);
        assert(spec_dotted(s) == Some(n));
    } else {
        lemma_label_end(name, tail);
        lemma_run_before(name, tail, CharClass::Label);
        assert(spec_dotted(s) is None);
        assert(spec_single_label(s) == Some(n));
        // No dot follows the digits that an address would start with.
        lemma_run_len_bounds(s, CharClass::Digit);
        let k = run_len(s, CharClass::Digit) as int;
        if k > n {
            assert(s.take(k)[n] == tail[0]);
            assert(CharClass::Digit.contains(tail[0]));
        }
        reveal(then_octet);
        reveal(then_dot);
        let first = then_octet(Ok((Seq::empty(), 0)), s);
        match first {
            Ok((octets, m)) => {
                assert(m <= k);
                if m < n {
                    assert(s[m] == name[m]);
                } else if m < s.len() {
                    assert(s[m] == tail[0]);
                }
                assert(!has_at(s, m, '.'));
                assert(then_dot(first, s) is Err);
            },
            Err(_) => {},
        }
        assert(spec_ipv4(s) is Err);
    }
}

/// The next number of an address is read as one more octet.
proof fn lemma_octet_written(
    octets: Seq<u8>,
    pos: int,
    s: Seq<char>,
    digits: Seq<char>,
    behind: Seq<char>,
)
    requires
        s.skip(pos) == digits + behind,
        is_number(digits, 3, 255),
        stops(behind, CharClass::Digit),
    ensures
        then_octet(Ok((octets, pos)), s) == Ok::<_, Trace>(
            (octets.push(decimal(digits) as u8), pos + digits.len()),
        ),
{
    reveal(then_octet);
    lemma_number_written(digits, behind, 3, 255);
}

/// The text of four numbers with dots between them and `tail` behind them,
/// put together from its end.
pub open spec fn quad_text(
    a: Seq<char>,
    b: Seq<char>,
    c: Seq<char>,
    d: Seq<char>,
    tail: Seq<char>,
) -> Seq<char> {
    a + (seq!['.'] + (b + (seq!['.'] + (c + (seq!['.'] + (d + tail))))))
}

/// The labels of an address that a dot follows are its first three numbers.
proof fn lemma_quad_dotted_end(
    a: Seq<char>,
    b: Seq<char>,
    c: Seq<char>,
    d: Seq<char>,
    tail: Seq<char>,
)
    requires
        a.len() > 0 && all_in(a, CharClass::Label),
        b.len() > 0 && all_in(b, CharClass::Label),
        c.len() > 0 && all_in(c, CharClass::Label),
        all_in(d, CharClass::Label),
        stops_host(tail),
    ensures
        dotted_end(quad_text(a, b, c, d, tail)) == a.len() + 1 + b.len() + 1 + c.len() + 1,
{
    let dot = seq!['.'];
    let s3 = d + tail;
    let s2 = c + (dot + s3);
    let s1 = b + (dot + s2);
    lemma_label_and_dot(a, s1);
    lemma_label_and_dot(b, s2);
    lemma_label_and_dot(c, s3);
    lemma_label_end(d, tail);
}

/// What stands behind a text and a dot.
proof fn lemma_behind_dot(s: Seq<char>, pos: int, text: Seq<char>, behind: Seq<char>)
    requires
        0 <= pos <= s.len(),
        s.skip(pos) == text + (seq!['.'] + behind),
    ensures
        has_at(s, pos + text.len(), '.'),
        s.skip(pos + text.len() + 1) == behind,
        pos + text.len() + 1 + behind.len() == s.len(),
{
    let t = s.skip(pos);
    let n = text.len() as int;
    assert(t.len() == n + 1 + behind.len());
    assert(t[n] == '.');
    assert(t[n] == s[pos + n]);
    assert(t.skip(n + 1) =~= behind);
    assert(t.skip(n + 1) =~= s.skip(pos + n + 1));
}

/// The text of an address does not have the dotted form of a name: its last
/// number holds no letter.
proof fn lemma_quad_is_no_name(
    a: Seq<char>,
    b: Seq<char>,
    c: Seq<char>,
    d: Seq<char>,
    tail: Seq<char>,
)
    requires
        is_number(a, 3, 255),
        is_number(b, 3, 255),
        is_number(c, 3, 255),
        is_number(d, 3, 255),
        stops_host(tail),
    ensures
        spec_dotted(quad_text(a, b, c, d, tail)) is None,
{
    let dot = seq!['.'];
    let s = quad_text(a, b, c, d, tail);
    let s3 = d + tail;
    let s2 = c + (dot + s3);
    let s1 = b + (dot + s2);
    let at1 = a.len() as int + 1;
    let at2 = at1 + b.len() + 1;
    let at3 = at2 + c.len() + 1;
    lemma_digits_are_label(a);
    lemma_digits_are_label(b);
    lemma_digits_are_label(c);
    lemma_digits_are_label(d);
    lemma_quad_dotted_end(a, b, c, d, tail);
    assert(s.skip(0) =~= s);
    lemma_behind_dot(s, 0, a, s1);
    lemma_behind_dot(s, at1, b, s2);
    lemma_behind_dot(s, at2, c, s3);
    assert(s3[0] == d[0]);
    assert(CharClass::Digit.contains(d[0]));
    assert(run_len(s3, CharClass::Alpha) == 0);
}

/// One number of an address and the dot behind it are read as one more
/// octet.
proof fn lemma_octet_and_dot(
    octets: Seq<u8>,
    pos: int,
    s: Seq<char>,
    digits: Seq<char>,
    behind: Seq<char>,
)
    requires
        0 <= pos <= s.len(),
        s.skip(pos) == digits + (seq!['.'] + behind),
        is_number(digits, 3, 255),
    ensures
        then_dot(then_octet(Ok((octets, pos)), s), s) == Ok::<_, Trace>(
            (octets.push(decimal(digits) as u8), pos + digits.len() + 1),
        ),
        s.skip(pos + digits.len() + 1) == behind,
        0 <= pos + digits.len() + 1 <= s.len(),
{
    let after = seq!['.'] + behind;
    assert(after[0] == '.');
    reveal(then_dot);
    lemma_octet_written(octets, pos, s, digits, after);
    lemma_behind_dot(s, pos, digits, behind);
}

/// The four numbers of an address as it is written are read as its octets.
proof fn lemma_quad_octets(
    a: Seq<char>,
    b: Seq<char>,
    c: Seq<char>,
    d: Seq<char>,
    tail: Seq<char>,
)
    requires
        is_number(a, 3, 255),
        is_number(b, 3, 255),
        is_number(c, 3, 255),
        is_number(d, 3, 255),
        stops_host(tail),
    ensures
        spec_ipv4(quad_text(a, b, c, d, tail)) == Ok::<_, Trace>(
            (
                seq![
                    decimal(a) as u8,
                    decimal(b) as u8,
                    decimal(c) as u8,
                    decimal(d) as u8,
                ],
                quad_text(a, b, c, d, tail).len() - tail.len(),
            ),
        ),
{
    let dot = seq!['.'];
    let s = quad_text(a, b, c, d, tail);
    let s3 = d + tail;
    let s2 = c + (dot + s3);
    let s1 = b + (dot + s2);
    let at1 = a.len() as int + 1;
    let at2 = at1 + b.len() + 1;
    let at3 = at2 + c.len() + 1;
    let o0 = Seq::<u8>::empty();
    let o1 = o0.push(decimal(a) as u8);
    let o2 = o1.push(decimal(b) as u8);
    let o3 = o2.push(decimal(c) as u8);
    let o4 = o3.push(decimal(d) as u8);
    assert(s.skip(0) =~= s);
    lemma_octet_and_dot(o0, 0, s, a, s1);
    lemma_octet_and_dot(o1, at1, s, b, s2);
    lemma_octet_and_dot(o2, at2, s, c, s3);
    lemma_octet_written(o3, at3, s, d, tail);
    assert(o4 =~= seq![decimal(a) as u8, decimal(b) as u8, decimal(c) as u8, decimal(d) as u8]);
    assert(s.len() == at3 + d.len() + tail.len());
}

/// An address as it is written is read as its four octets, where what
/// follows it cannot belong to a host.
pub proof fn lemma_address_written(numbers: Seq<Seq<char>>, tail: Seq<char>)
    requires
        is_host(WrittenHost::Address(numbers)),
        stops_host(tail),
    ensures
        spec_host(host_text(WrittenHost::Address(numbers)) + tail) == Ok::<_, Trace>(
            (
                host_of(WrittenHost::Address(numbers)),
                host_text(WrittenHost::Address(numbers)).len() as int,
            ),
        ),
{
    reveal(spec_host);
    let a = numbers[0];
    let b = numbers[1];
    let c = numbers[2];
    let d = numbers[3];
    assert(is_number(a, 3, 255) && is_number(b, 3, 255) && is_number(c, 3, 255) && is_number(
        d,
        3,
        255,
    ));
    assert(host_text(WrittenHost::Address(numbers)) + tail =~= quad_text(a, b, c, d, tail));
    lemma_quad_is_no_name(a, b, c, d, tail);
    lemma_quad_octets(a, b, c, d, tail);
}

/// A host as it is written is read as the host that it denotes, where what
/// follows it cannot belong to a host.
pub proof fn lemma_host_written(host: WrittenHost, tail: Seq<char>)
    requires
        is_host(host),
        stops_host(tail),
    ensures
        spec_host(host_text(host) + tail) == Ok::<_, Trace>(
            (host_of(host), host_text(host).len() as int),
        ),
{
    match host {
        WrittenHost::Name(name) => {
            lemma_name_written(name, tail);
        },
        WrittenHost::Address(numbers) => {
            lemma_address_written(numbers, tail);
        },
    }
}

} // verus!
