//! Which tab names the plugin may replace.

use vstd::prelude::*;
use crate::formatter::spec_fmt_label;
use crate::text::{all_digits, chars_of, decimal, digit_char, digits_value, is_digit, parse_u32, parse_u32_chars, starts_with, starts_with_chars, sub_chars, trunc_seq};

verus! {

/// `"Tab #"`, the prefix of the multiplexer's own names.
pub open spec fn tab_hash() -> Seq<char> {
    seq!['T', 'a', 'b', ' ', '#']
}

pub open spec fn colon_space_at(s: Seq<char>, i: int) -> bool {
    0 <= i && i + 1 < s.len() && s[i] == ':' && s[i + 1] == ' '
}

pub open spec fn is_first_colon_space(s: Seq<char>, i: int) -> bool {
    colon_space_at(s, i) && forall|j: int| 0 <= j < i ==> !colon_space_at(s, j)
}

/// `str::find(": ")`: where the first `": "` starts.
pub open spec fn first_colon_space(s: Seq<char>) -> Option<int> {
    if exists|i: int| is_first_colon_space(s, i) {
        Some(choose|i: int| is_first_colon_space(s, i))
    } else {
        None
    }
}

/// A name the multiplexer gave (`Tab #<n>`) or one of this plugin's labels
/// (`<n>: ...`).
pub open spec fn spec_is_default_tab_name(name: Seq<char>) -> bool {
    ||| (starts_with(name, tab_hash()) && parse_u32(name.skip(5)) is Some)
    ||| (match first_colon_space(name) {
        Some(i) => parse_u32(name.take(i)) is Some,
        None => false,
    })
}

proof fn lemma_first_unique(s: Seq<char>, i: int, k: int)
    requires
        is_first_colon_space(s, i),
        is_first_colon_space(s, k),
    ensures
        i == k,
{
    if i < k {
        assert(!colon_space_at(s, i));
    } else if k < i {
        assert(!colon_space_at(s, k));
    }
}

proof fn lemma_no_colon_space(s: Seq<char>)
    requires
        forall|j: int| 0 <= j < s.len() ==> !colon_space_at(s, j),
    ensures
        first_colon_space(s) is None,
{
    if exists|i: int| is_first_colon_space(s, i) {
        let i = choose|i: int| is_first_colon_space(s, i);
        assert(colon_space_at(s, i));
    }
}

/// Whether `name` is a name the plugin may replace: the multiplexer's
/// `Tab #<n>`, or a label of the form `<n>: ...`.
pub fn is_default_tab_name(name: &str) -> (r: bool)
    ensures
        r == spec_is_default_tab_name(name@),
{
    let s = chars_of(name);
    let prefix = vec!['T', 'a', 'b', ' ', '#'];
    assert(prefix@ =~= tab_hash());
    if starts_with_chars(&s, &prefix) {
        let rest = sub_chars(&s, 5, s.len());
        assert(rest@ =~= s@.skip(5));
        if parse_u32_chars(&rest).is_some() {
            return true;
        }
    }
    let n = s.len();
    let mut i: usize = 0;
    while i < n
        invariant
            n == s.len(),
            s@ == name@,
            i <= n,
            !(starts_with(s@, tab_hash()) && parse_u32(s@.skip(5)) is Some),
            forall|j: int| 0 <= j < i ==> !colon_space_at(s@, j),
        decreases n - i,
    {
        if i + 1 < n && s[i] == ':' && s[i + 1] == ' ' {
            assert(is_first_colon_space(s@, i as int));
            proof {
                let k = choose|k: int| is_first_colon_space(s@, k);
                lemma_first_unique(s@, i as int, k);
            }
            let head = sub_chars(&s, 0, i);
            assert(head@ =~= s@.take(i as int));
            return parse_u32_chars(&head).is_some();
        }
        i = i + 1;
    }
    proof {
        lemma_no_colon_space(s@);
    }
    false
}

pub open spec fn pow10(k: nat) -> nat
    decreases k,
{
    if k == 0 {
        1
    } else {
        10 * pow10((k - 1) as nat)
    }
}

proof fn lemma_decimal_len(n: nat, k: nat)
    requires
        k >= 1,
        n < pow10(k),
    ensures
        decimal(n).len() <= k,
    decreases n,
{
    if n >= 10 {
        assert(k >= 2) by {
            if k == 1 {
                assert(pow10(1) == 10 * pow10(0));
            }
        }
        assert(pow10(k) == 10 * pow10((k - 1) as nat));
        lemma_decimal_len(n / 10, (k - 1) as nat);
    }
}

proof fn lemma_decimal_digits(n: nat)
    ensures
        all_digits(decimal(n)),
        decimal(n).len() >= 1,
        digits_value(decimal(n)) == n,
    decreases n,
{
    assert(digit_char(n % 10) as u32 == (n % 10) + 0x30);
    if n < 10 {
        let d = decimal(n);
        assert(d.drop_last() =~= Seq::<char>::empty());
        assert(digits_value(d) == digits_value(d.drop_last()) * 10 + ((d.last() as u32) - 0x30) as nat);
    } else {
        lemma_decimal_digits(n / 10);
        let d = decimal(n);
        assert(d.drop_last() =~= decimal(n / 10));
        assert(d.last() == digit_char(n % 10));
        assert(digits_value(d) == digits_value(d.drop_last()) * 10 + ((d.last() as u32) - 0x30) as nat);
        assert((n / 10) * 10 + n % 10 == n);
        assert forall|i: int| 0 <= i < d.len() implies is_digit(#[trigger] d[i]) by {
            if i < d.len() - 1 {
                assert(d[i] == decimal(n / 10)[i]);
            }
        }
    }
}

/// Every label the plugin writes counts as a name it may replace again, so
/// the tabs it has named stay under its management.
pub proof fn lemma_labels_are_default(position: u32, label: Seq<char>)
    requires
        position < u32::MAX,
    ensures
        spec_is_default_tab_name(spec_fmt_label(position, label)),
{
    let n = (position + 1) as nat;
    lemma_decimal_digits(n);
    let d = decimal(n);
    let full = d + seq![':', ' '] + label;
    let name = trunc_seq(full, 60);
    assert(pow10(10) == 10_000_000_000) by {
        reveal_with_fuel(pow10, 11);
    }
    lemma_decimal_len(n, 10);
    assert(d.len() <= 10);
    let k = d.len() as int;
    assert(name[k] == ':' && name[k + 1] == ' ');
    assert forall|j: int| 0 <= j < k implies !colon_space_at(name, j) by {
        assert(name[j] == d[j]);
        assert(is_digit(d[j]));
    }
    assert(is_first_colon_space(name, k));
    let c = choose|c: int| is_first_colon_space(name, c);
    lemma_first_unique(name, k, c);
    assert(name.take(k) =~= d);
    assert(d.len() > 0 && d[0] != '+') by {
        assert(is_digit(d[0]));
    }
}

} // verus!
