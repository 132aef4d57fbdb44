//! A URL written out in one fixed way: the scheme in lower case, and the
//! numbers in decimal digits without leading zeros.

use vstd::prelude::*;
use crate::chars::{digit_value, CharClass};
use crate::grammar::{http_literal, https_literal};
use crate::text::{all_in, decimal, pow10};
use crate::url::{HostView, Protocol, UrlView};
use crate::written::{
    is_number, is_pairs, is_segments, text_of, well_formed, Written, WrittenHost,
};

verus! {

/// The digit that writes `d`.
pub open spec fn digit_char(d: nat) -> char {
    if d == 0 {
        '0'
    } else if d == 1 {
        '1'
    } else if d == 2 {
        '2'
    } else if d == 3 {
        '3'
    } else if d == 4 {
        '4'
    } else if d == 5 {
        '5'
    } else if d == 6 {
        '6'
    } else if d == 7 {
        '7'
    } else if d == 8 {
        '8'
    } else {
        '9'
    }
}

/// The decimal digits of `n`, without leading zeros.
pub open spec fn digits_of(n: nat) -> Seq<char>
    decreases n,
{
    if n < 10 {
        seq![digit_char(n)]
    } else {
        digits_of(n / 10).push(digit_char(n % 10))
    }
}

/// The digits of a number are digits, at least one, and write the number.
pub proof fn lemma_digits_of(n: nat)
    ensures
        all_in(digits_of(n), CharClass::Digit),
        digits_of(n).len() >= 1,
        decimal(digits_of(n)) == n,
    decreases n,
{
    let text = digits_of(n);
    if n < 10 {
        assert(text.drop_last() =~= Seq::<char>::empty());
        assert(decimal(text.drop_last()) == 0);
        assert(digit_value(digit_char(n)) == n);
    } else {
        let init = digits_of(n / 10);
        lemma_digits_of(n / 10);
        assert(text.drop_last() =~= init);
        assert(digit_value(digit_char(n % 10)) == n % 10);
        assert forall|i: int| 0 <= i < text.len() implies CharClass::Digit.contains(
            #[trigger] text[i],
        ) by {
            if i < init.len() {
                assert(text[i] == init[i]);
            }
        }
    }
}

/// A number below ten to the power of `k` has at most `k` digits.
pub proof fn lemma_digits_of_len(n: nat, k: nat)
    requires
        k >= 1,
        n < pow10(k),
    ensures
        digits_of(n).len() <= k,
    decreases n,
{
    if n >= 10 {
        assert(pow10(1) == 10) by {
            reveal_with_fuel(pow10, 2);
        }
        assert(k >= 2);
        lemma_digits_of_len(n / 10, (k - 1) as nat);
    }
}

/// The digits of an octet and of a port are numbers of the grammar.
pub proof fn lemma_digits_are_numbers(n: nat)
    ensures
        n <= 255 ==> is_number(digits_of(n), 3, 255),
        n <= 65535 ==> is_number(digits_of(n), 5, 65535),
{
    lemma_digits_of(n);
    reveal_with_fuel(pow10, 6);
    if n <= 255 {
        lemma_digits_of_len(n, 3);
    }
    if n <= 65535 {
        lemma_digits_of_len(n, 5);
    }
}

/// What holds of every URL that is read: the host is well formed, a path has
/// at least one segment and none of them holds `/`, `?` or `#`, and a query
/// has at least one pair, whose keys and values are not empty and hold none
/// of `=`, `&` and `#`.
pub open spec fn well_formed_url(url: UrlView) -> bool {
    &&& well_formed(url.host)
    &&& url.path matches Some(segments) ==> segments.len() > 0 && is_segments(segments)
    &&& url.query matches Some(pairs) ==> pairs.len() > 0 && is_pairs(pairs)
}

/// The parts of `url`, written in the fixed way.
pub open spec fn written_form(url: UrlView) -> Written {
    Written {
        scheme: match url.protocol {
            Protocol::HTTP => http_literal(),
            Protocol::HTTPS => https_literal(),
        },
        host: match url.host {
            HostView::HOST(name) => WrittenHost::Name(name),
            HostView::IP(octets) => WrittenHost::Address(
                seq![
                    digits_of(octets[0] as nat),
                    digits_of(octets[1] as nat),
                    digits_of(octets[2] as nat),
                    digits_of(octets[3] as nat),
                ],
            ),
        },
        port: match url.port {
            Some(port) => Some(digits_of(port as nat)),
            None => None,
        },
        path: url.path,
        query: url.query,
        fragment: url.fragment,
    }
}

/// The text of `url`: its parts put together again.
pub open spec fn render(url: UrlView) -> Seq<char> {
    text_of(written_form(url))
}

} // verus!
