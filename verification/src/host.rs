//! The host of a URL: a dotted name, an IPv4 address, or a single label.

use vstd::prelude::*;
use vstd::string::StringExecFns;
use crate::chars::CharClass;
use crate::error::{ErrorTag, ParseError};
use crate::grammar::{
    dotted_end, fails, host_trace, joined, name_of, reads, single_label_trace, spec_dotted,
    spec_host, spec_ipv4, spec_number, spec_single_label, then_dot, then_octet, Outcome,
};
use crate::matchers::{alpha1, alphanumerichyphen1, lemma_symbols, symbol};
use crate::number::{lemma_number_bounds, number};
use crate::text::{has_at, lemma_run_len_bounds, run_len};
use crate::url::{strs_view, Host};

verus! {

/// The labels, each with a dot behind it.
pub open spec fn dotted_text(labels: Seq<Seq<char>>) -> Seq<char>
    decreases labels.len(),
{
    if labels.len() == 0 {
        Seq::empty()
    } else {
        dotted_text(labels.drop_last()) + labels.last() + seq!['.']
    }
}

/// Labels joined by dots, with one more dot behind them, are the labels each
/// with a dot behind it.
pub proof fn lemma_joined_dotted(labels: Seq<Seq<char>>)
    requires
        labels.len() > 0,
    ensures
        joined(labels, seq!['.']) + seq!['.'] == dotted_text(labels),
    decreases labels.len(),
{
    let init = labels.drop_last();
    if init.len() == 0 {
        assert(dotted_text(init) + labels.last() =~= labels[0]);
    } else {
        lemma_joined_dotted(init);
    }
}

/// One more string behind the strings of `v`.
pub proof fn lemma_strs_view_push(v: Seq<&str>, s: &str)
    ensures
        strs_view(v.push(s)) == strs_view(v).push(s@),
{
    assert(strs_view(v.push(s)) =~= strs_view(v).push(s@));
}

/// Joins `parts` with `separator` between them.
pub fn join(parts: &Vec<&str>, separator: &str) -> (text: String)
    ensures
        text@ == joined(strs_view(parts@), separator@),
{
    let mut text = String::new();
    let mut i: usize = 0;
    while i < parts.len()
        invariant
            i <= parts.len(),
            text@ == joined(strs_view(parts@).take(i as int), separator@),
        decreases parts.len() - i,
    {
        let ghost read = strs_view(parts@).take(i as int);
        let ghost next = strs_view(parts@).take(i + 1);
        proof {
            assert(next.drop_last() =~= read);
            assert(next.last() == parts@[i as int]@);
        }
        if i > 0 {
            text.append(separator);
        }
        text.append(parts[i]);
        proof {
            if i == 0 {
                assert(text@ =~= parts@[0]@);
            }
        }
        i = i + 1;
    }
    proof {
        assert(strs_view(parts@).take(parts.len() as int) =~= strs_view(parts@));
    }
    text
}

/// The dotted form of a host name: one or more labels that are each followed
/// by a dot, then a label of letters. The labels before the last come first
/// in the result, the last label second. `None` where the input does not have
/// the form.
pub fn dotted_name<'a>(input: &'a str) -> (r: Option<(&'a str, (Vec<&'a str>, &'a str))>)
    ensures
        match r {
            Some((rest, (labels, last))) => {
                &&& spec_dotted(input@) matches Some(n) && 0 <= n <= input@.len() && rest@
                    == input@.skip(n) && name_of(strs_view(labels@), last@) == input@.take(n)
                &&& labels@.len() > 0
                &&& last@.len() > 0
            },
            None => spec_dotted(input@) is None,
        },
{
    let mut labels: Vec<&'a str> = Vec::new();
    let mut cur = input;
    let ghost mut pos: int = 0;
    proof {
        assert(input@.skip(0) =~= input@);
        assert(input@.take(0) =~= Seq::<char>::empty());
        lemma_dotted_end_bounds(input@);
        lemma_symbols();
    }
    loop
        invariant
            0 <= pos <= input@.len(),
            cur@ == input@.skip(pos),
            dotted_end(input@) == pos + dotted_end(cur@),
            dotted_end(cur@) >= 0,
            dotted_text(strs_view(labels@)) == input@.take(pos),
            (labels@.len() > 0) == (pos > 0),
            "."@ == seq!['.'],
        ensures
            dotted_end(cur@) == 0,
        decreases cur@.len(),
    {
        proof {
            lemma_run_len_bounds(cur@, CharClass::Label);
        }
        let (after, label) = match alphanumerichyphen1(cur) {
            Ok(found) => found,
            Err(_) => {
                break ;
            },
        };
        let next = match symbol(after, ".", Ghost('.')) {
            Ok(next) => next,
            Err(_) => {
                proof {
                    let k = run_len(cur@, CharClass::Label) as int;
                    if k < cur@.len() {
                        assert(after@[0] == cur@[k]);
                    }
                }
                break ;
            },
        };
        proof {
            let k = run_len(cur@, CharClass::Label) as int;
            assert(after@[0] == cur@[k]);
            assert(has_at(cur@, k, '.'));
            assert(next@ =~= cur@.skip(k + 1));
            assert(cur@.skip(k + 1) =~= input@.skip(pos + k + 1));
            lemma_dotted_end_bounds(cur@.skip(k + 1));
            lemma_strs_view_push(labels@, label);
            let grown = strs_view(labels@).push(label@);
            assert(grown.drop_last() =~= strs_view(labels@));
            assert(dotted_text(grown) == input@.take(pos) + label@ + seq!['.']);
            assert(input@.take(pos) + label@ + seq!['.'] =~= input@.take(pos + k + 1)) by {
                assert forall|i: int| 0 <= i < pos + k + 1 implies (input@.take(pos) + label@
                    + seq!['.'])[i] == input@[i] by {
                    if pos <= i < pos + k {
                        assert(label@[i - pos] == cur@[i - pos]);
                    } else if i == pos + k {
                        assert(cur@[k] == input@[pos + k]);
                    }
                }
            }
            pos = pos + k + 1;
        }
        labels.push(label);
        cur = next;
    }
    if labels.len() == 0 {
        return None;
    }
    proof {
        lemma_run_len_bounds(cur@, CharClass::Alpha);
    }
    match alpha1(cur) {
        Ok((rest, last)) => {
            proof {
                let a = run_len(cur@, CharClass::Alpha) as int;
                assert(rest@ =~= input@.skip(pos + a));
                let all = strs_view(labels@).push(last@);
                assert(all.drop_last() =~= strs_view(labels@));
                lemma_joined_dotted(strs_view(labels@));
                assert(input@.take(pos) + last@ =~= input@.take(pos + a));
                assert(joined(all, seq!['.']) =~= joined(strs_view(labels@), seq!['.']) + seq![
                    '.',
                ] + last@);
            }
            Some((rest, (labels, last)))
        },
        Err(_) => None,
    }
}

/// The labels that a dot follows end within the text.
pub proof fn lemma_dotted_end_bounds(s: Seq<char>)
    ensures
        0 <= dotted_end(s) <= s.len(),
    decreases s.len(),
{
    let k = run_len(s, CharClass::Label) as int;
    if k > 0 && has_at(s, k, '.') {
        lemma_dotted_end_bounds(s.skip(k + 1));
    }
}

/// The single-label form of a host name: one label, and the empty text in
/// the place of a last label.
pub fn single_label<'a>(input: &'a str) -> (r: Result<
    (&'a str, (Vec<&'a str>, &'a str)),
    ParseError<'a>,
>)
    ensures
        match r {
            Ok((rest, (labels, last))) => {
                &&& spec_single_label(input@) matches Some(n) && 0 <= n <= input@.len() && rest@
                    == input@.skip(n) && name_of(strs_view(labels@), last@) == input@.take(n)
                &&& labels@.len() == 1
                &&& last@.len() == 0
            },
            Err(e) => spec_single_label(input@) is None && e@ == single_label_trace(input@),
        },
{
    proof {
        lemma_run_len_bounds(input@, CharClass::Label);
    }
    match alphanumerichyphen1(input) {
        Ok((rest, label)) => {
            let mut labels: Vec<&'a str> = Vec::new();
            labels.push(label);
            proof {
                reveal_strlit("");
                assert(strs_view(labels@) =~= seq![label@]);
            }
            Ok((rest, (labels, "")))
        },
        Err(e) => {
            let e = e.append(input, ErrorTag::ManyMN);
            assert(e@ =~= single_label_trace(input@));
            Err(e)
        },
    }
}

/// Reads one more octet of `input` at `rest`, behind what was read so far.
fn next_octet<'a>(input: &'a str, rest: &'a str, Ghost(sofar): Ghost<Outcome<Seq<u8>>>) -> (r:
    Result<(&'a str, u8), ParseError<'a>>)
    requires
        sofar matches Ok((octets, n)) && 0 <= n <= input@.len() && rest@ == input@.skip(n),
    ensures
        match r {
            Ok((next, octet)) => then_octet(sofar, input@) matches Ok((octets, m)) && octets
                == sofar->Ok_0.0.push(octet) && 0 <= m <= input@.len() && next@ == input@.skip(
                m,
            ),
            Err(e) => then_octet(sofar, input@) == Err::<(Seq<u8>, int), _>(e@),
        },
{
    let ghost n = sofar->Ok_0.1;
    proof {
        reveal(then_octet);
        lemma_number_bounds(input@.skip(n), 3, 255);
    }
    match number(rest, 3, 255) {
        Ok((next, value)) => {
            proof {
                let k = spec_number(input@.skip(n), 3, 255)->Ok_0.1;
                assert(next@ =~= input@.skip(n + k));
            }
            Ok((next, value as u8))
        },
        Err(e) => Err(e),
    }
}

/// Reads the dot of `input` at `rest`, behind what was read so far.
fn next_dot<'a>(input: &'a str, rest: &'a str, Ghost(sofar): Ghost<Outcome<Seq<u8>>>) -> (r:
    Result<&'a str, ParseError<'a>>)
    requires
        sofar matches Ok((octets, n)) && 0 <= n <= input@.len() && rest@ == input@.skip(n),
    ensures
        match r {
            Ok(next) => then_dot(sofar, input@) matches Ok((octets, m)) && octets
                == sofar->Ok_0.0 && 0 <= m <= input@.len() && next@ == input@.skip(m),
            Err(e) => then_dot(sofar, input@) == Err::<(Seq<u8>, int), _>(e@),
        },
{
    let ghost n = sofar->Ok_0.1;
    proof {
        reveal(then_dot);
        lemma_symbols();
    }
    match symbol(rest, ".", Ghost('.')) {
        Ok(next) => {
            proof {
                assert(rest@[0] == input@[n]);
                assert(next@ =~= input@.skip(n + 1));
            }
            Ok(next)
        },
        Err(e) => {
            proof {
                if n < input@.len() {
                    assert(rest@[0] == input@[n]);
                }
            }
            Err(e)
        },
    }
}

/// Reads an IPv4 address at the start of `input`: four numbers of one to
/// three digits, each at most 255, with a dot between them.
pub fn parse_ipv4<'a>(input: &'a str) -> (r: Result<(&'a str, [u8; 4]), ParseError<'a>>)
    ensures
        match r {
            Ok((rest, octets)) => reads(spec_ipv4(input@), input@, octets@, rest@),
            Err(e) => fails(spec_ipv4(input@), e@),
        },
{
    let ghost s = input@;
    let ghost start: Outcome<Seq<u8>> = Ok((Seq::empty(), 0));
    proof {
        reveal(then_octet);
        reveal(then_dot);
        assert(s.skip(0) =~= s);
    }
    let (rest, a) = match next_octet(input, input, Ghost(start)) {
        Ok(found) => found,
        Err(e) => {
            return Err(e.add_context(input, "ipv4"));
        },
    };
    let ghost first = then_octet(start, s);
    let rest = match next_dot(input, rest, Ghost(first)) {
        Ok(rest) => rest,
        Err(e) => {
            return Err(e.add_context(input, "ipv4"));
        },
    };
    let (rest, b) = match next_octet(input, rest, Ghost(then_dot(first, s))) {
        Ok(found) => found,
        Err(e) => {
            return Err(e.add_context(input, "ipv4"));
        },
    };
    let ghost second = then_octet(then_dot(first, s), s);
    let rest = match next_dot(input, rest, Ghost(second)) {
        Ok(rest) => rest,
        Err(e) => {
            return Err(e.add_context(input, "ipv4"));
        },
    };
    let (rest, c) = match next_octet(input, rest, Ghost(then_dot(second, s))) {
        Ok(found) => found,
        Err(e) => {
            return Err(e.add_context(input, "ipv4"));
        },
    };
    let ghost third = then_octet(then_dot(second, s), s);
    let rest = match next_dot(input, rest, Ghost(third)) {
        Ok(rest) => rest,
        Err(e) => {
            return Err(e.add_context(input, "ipv4"));
        },
    };
    let (rest, d) = match next_octet(input, rest, Ghost(then_dot(third, s))) {
        Ok(found) => found,
        Err(e) => {
            return Err(e.add_context(input, "ipv4"));
        },
    };
    let ghost fourth = then_octet(then_dot(third, s), s);
    let octets: [u8; 4] = [a, b, c, d];
    proof {
        assert(octets@ =~= fourth->Ok_0.0);
    }
    Ok((rest, octets))
}

/// Reads the host at the start of `input`. The dotted form of a name is
/// tried first, then an IPv4 address, then a single label; the first that
/// matches is read. What the last form reports is the trace of a failure.
pub fn parse_host<'a>(input: &'a str) -> (r: Result<(&'a str, Host), ParseError<'a>>)
    ensures
        match r {
            Ok((rest, host)) => reads(spec_host(input@), input@, host@, rest@),
            Err(e) => fails(spec_host(input@), e@),
        },
{
    proof {
        reveal(spec_host);
    }
    let (rest, (mut labels, last)) = match dotted_name(input) {
        Some(found) => found,
        None => match parse_ipv4(input) {
            Ok((rest, octets)) => {
                return Ok((rest, Host::IP(octets)));
            },
            Err(_) => match single_label(input) {
                Ok(found) => found,
                Err(e) => {
                    let e = e.append(input, ErrorTag::Alt).add_context(input, "host");
                    assert(e@ =~= host_trace(input@));
                    return Err(e);
                },
            },
        },
    };
    proof {
        lemma_symbols();
        lemma_strs_view_push(labels@, last);
    }
    if !last.is_empty() {
        labels.push(last);
    }
    Ok((rest, Host::HOST(join(&labels, "."))))
}

} // verus!
