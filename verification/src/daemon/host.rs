//! What this machine advertises about itself.
//!
//! Memory here is the physical total, which is advisory: a planner uses a
//! measured figure, not this one.

use vstd::prelude::*;

use crate::text::{before, begins, chars_of, decimal, ends, ends_with, find, is_digit, is_whitespace, char_is_whitespace, join3, law_begins_and_ends, law_decimal_reads_back, law_split_is_at_the_first, lemma_decimal_holds_no, number_within, parse_number, piece, split_first, split_once, starts_with, text_of, trimmed_start};

verus! {

/// What this machine says of itself.
#[derive(Clone, Debug)]
pub struct HostFacts {
    pub name: String,
    pub platform: String,
    pub total_memory: u64,
}

/// `os-arch`.
pub fn platform(os: &str, arch: &str) -> (out: String)
    ensures
        out@ == os@ + "-"@ + arch@,
{
    join3(os, "-", arch)
}

/// A host's name without the suffix that multicast DNS gives it.
pub open spec fn short_name(name: Seq<char>) -> Seq<char> {
    if ends(name, ".local"@) {
        name.take(name.len() - 6)
    } else {
        name
    }
}

/// Takes the suffix off, so that "studio.local" and "studio" read the same.
pub fn trim_host(name: &str) -> (out: String)
    ensures
        out@ == short_name(name@),
{
    proof {
        reveal_strlit(".local");
    }
    let chars = chars_of(name);
    let suffix = chars_of(".local");
    if ends_with(chars.as_slice(), suffix.as_slice()) {
        let kept = piece(chars.as_slice(), 0, chars.len() - 6);
        assert(kept@ =~= name@.take(name@.len() - 6));
        text_of(kept.as_slice())
    } else {
        name.to_owned()
    }
}

/// What follows a label on the first line that begins with it.
pub open spec fn labelled(text: Seq<char>, label: Seq<char>) -> Option<Seq<char>>
    decreases text.len(),
{
    let line = before(text, '\n');
    if begins(line, label) {
        Some(line.skip(label.len() as int))
    } else {
        match split_first(text, '\n') {
            Some((_, rest)) => if rest.len() < text.len() {
                labelled(rest, label)
            } else {
                None
            },
            None => None,
        }
    }
}

/// The characters before the first white space.
pub open spec fn word(s: Seq<char>) -> Seq<char>
    decreases s.len(),
{
    if s.len() == 0 || is_whitespace(s[0]) {
        Seq::empty()
    } else {
        seq![s[0]] + word(s.drop_first())
    }
}

/// The kibibytes of memory that `/proc/meminfo` reports: the number first after
/// the label `MemTotal:`.
pub open spec fn reported_kib(text: Seq<char>) -> Option<nat> {
    match labelled(text, "MemTotal:"@) {
        Some(rest) => number_within(word(trimmed_start(rest)), u64::MAX as nat),
        None => None,
    }
}

fn find_labelled(text: &[char], label: &[char]) -> (out: Option<Vec<char>>)
    ensures
        match labelled(text@, label@) {
            Some(rest) => out matches Some(o) && o@ == rest,
            None => out is None,
        },
    decreases text@.len(),
{
    let at = find(text, '\n');
    let line = piece(text, 0, at);
    assert(line@ =~= before(text@, '\n'));
    if starts_with(line.as_slice(), label) {
        let rest = piece(line.as_slice(), label.len(), line.len());
        assert(rest@ =~= line@.skip(label@.len() as int));
        return Some(rest);
    }
    match split_once(text, '\n') {
        Some((_, rest)) => if rest.len() < text.len() {
            find_labelled(rest.as_slice(), label)
        } else {
            None
        },
        None => None,
    }
}

proof fn lemma_word(s: Seq<char>, at: int)
    requires
        0 <= at <= s.len(),
        forall|i: int| 0 <= i < at ==> !is_whitespace(#[trigger] s[i]),
        at < s.len() ==> is_whitespace(s[at]),
    ensures
        word(s) == s.take(at),
    decreases s.len(),
{
    if at == 0 {
        assert(s.take(0) =~= Seq::<char>::empty());
    } else {
        let rest = s.drop_first();
        assert(!is_whitespace(s[0]));
        assert forall|i: int| 0 <= i < at - 1 implies !is_whitespace(#[trigger] rest[i]) by {
            assert(!is_whitespace(s[i + 1]));
        }
        lemma_word(rest, at - 1);
        assert(s.take(at) =~= seq![s[0]] + rest.take(at - 1));
    }
}

fn first_word(chars: &[char]) -> (out: Vec<char>)
    ensures
        out@ == word(trimmed_start(chars@)),
{
    let mut from: usize = 0;
    assert(chars@.skip(0) =~= chars@);
    while from < chars.len() && char_is_whitespace(chars[from])
        invariant
            from <= chars@.len(),
            trimmed_start(chars@.skip(from as int)) == trimmed_start(chars@),
        decreases chars@.len() - from,
    {
        assert(chars@.skip(from as int).drop_first() =~= chars@.skip(from as int + 1));
        from = from + 1;
    }
    let ghost rest = chars@.skip(from as int);
    assert(trimmed_start(rest) == rest);
    let mut to: usize = from;
    while to < chars.len() && !char_is_whitespace(chars[to])
        invariant
            from <= to <= chars@.len(),
            rest == chars@.skip(from as int),
            forall|i: int| 0 <= i < to - from ==> !is_whitespace(#[trigger] rest[i]),
        decreases chars@.len() - to,
    {
        to = to + 1;
    }
    proof {
        lemma_word(rest, to - from);
        assert(chars@.subrange(from as int, to as int) =~= rest.take(to - from));
    }
    piece(chars, from, to)
}

/// The kibibytes of memory that `/proc/meminfo` reports.
pub fn meminfo_kib(text: &str) -> (out: Option<u64>)
    ensures
        match reported_kib(text@) {
            Some(kib) => out == Some(kib as u64) && kib <= u64::MAX,
            None => out is None,
        },
{
    let chars = chars_of(text);
    let label = chars_of("MemTotal:");
    match find_labelled(chars.as_slice(), label.as_slice()) {
        Some(rest) => {
            let first = first_word(rest.as_slice());
            parse_number(first.as_slice(), u64::MAX)
        },
        None => None,
    }
}

/// Pulls `MemTotal` out of `/proc/meminfo`, which reports kibibytes. Without one,
/// zero rather than a wrong number.
pub fn parse_meminfo(text: &str) -> (out: u64)
    requires
        reported_kib(text@) matches Some(kib) ==> kib * 1024 <= u64::MAX,
    ensures
        out == memory_of(text@),
{
    match meminfo_kib(text) {
        Some(kib) => kib * 1024,
        None => 0,
    }
}

/// The bytes of memory that a report gives, none where it gives no number.
pub open spec fn memory_of(text: Seq<char>) -> nat {
    match reported_kib(text) {
        Some(kib) => kib * 1024,
        None => 0,
    }
}

/// A host's name loses one `.local` at its end, and no other name changes.
pub proof fn law_only_a_local_suffix_goes(name: Seq<char>)
    ensures
        short_name(name + ".local"@) == name,
        (forall|rest: Seq<char>| name != #[trigger] (rest + ".local"@)) ==> short_name(name)
            == name,
{
    reveal_strlit(".local");
    let whole = name + ".local"@;
    law_begins_and_ends(whole, ".local"@);
    law_begins_and_ends(name, ".local"@);
    assert(whole == name + ".local"@);
    assert(whole.take(whole.len() - 6) =~= name);
}

/// What a line with a label says is read from the first such line: lines before it
/// without the label change nothing, and neither does anything after it.
pub proof fn law_first_labelled_line_is_read(
    label: Seq<char>,
    line: Seq<char>,
    rest: Seq<char>,
    said: Seq<char>,
)
    requires
        !line.contains('\n'),
        !label.contains('\n'),
        !said.contains('\n'),
    ensures
        labelled((label + said).push('\n') + rest, label) == Some(said),
        labelled(label + said, label) == Some(said),
        !begins(line, label) ==> labelled(line.push('\n') + rest, label) == labelled(rest, label),
{
    let own = label + said;
    assert(!own.contains('\n')) by {
        if own.contains('\n') {
            let i = own.index_of('\n');
            if i < label.len() {
                assert(label[i] == '\n');
            } else {
                assert(said[i - label.len()] == '\n');
            }
        }
    }
    law_split_is_at_the_first(own, '\n');
    let text = own.push('\n') + rest;
    assert(before(own.push('\n') + rest, '\n') == own);
    assert(own.take(label.len() as int) =~= label);
    assert(own.skip(label.len() as int) =~= said);
    let other = line.push('\n') + rest;
    law_split_is_at_the_first(other, '\n');
    assert(before(line.push('\n') + rest, '\n') == line);
    assert(other[line.len() as int] == '\n');
    assert(other.contains('\n'));
    assert(other.skip(line.len() as int + 1) =~= rest);
}

/// The memory is the number after `MemTotal:`, whatever white space stands before it,
/// up to the white space after it.
pub proof fn law_memory_is_the_labelled_number(gap: Seq<char>, n: u64, after: Seq<char>)
    requires
        forall|i: int| 0 <= i < gap.len() ==> #[trigger] gap[i] == ' ',
        after.len() > 0 ==> after[0] == ' ',
        !after.contains('\n'),
    ensures
        reported_kib("MemTotal:"@ + (gap + decimal(n as nat) + after)) == Some(n as nat),
        memory_of("MemTotal:"@ + (gap + decimal(n as nat) + after)) == 1024 * n,
{
    reveal_strlit("MemTotal:");
    let said = gap + decimal(n as nat) + after;
    lemma_decimal_holds_no(n as nat, '\n');
    assert(!said.contains('\n')) by {
        if said.contains('\n') {
            let i = said.index_of('\n');
            let d = decimal(n as nat);
            if i < gap.len() {
                assert(gap[i] == '\n');
            } else if i < gap.len() + d.len() {
                assert(d[i - gap.len()] == '\n');
            } else {
                assert(after[i - gap.len() - d.len()] == '\n');
            }
        }
    }
    assert(!"MemTotal:"@.contains('\n'));
    law_first_labelled_line_is_read("MemTotal:"@, said, said, said);
    lemma_gap(gap, decimal(n as nat) + after, n);
    assert(said =~= gap + (decimal(n as nat) + after));
    let (digits, rest) = (decimal(n as nat), decimal(n as nat) + after);
    assert forall|i: int| 0 <= i < digits.len() implies !is_whitespace(#[trigger] rest[i]) by {
        lemma_digit_is_no_space(n as nat, i);
        assert(rest[i] == digits[i]);
    }
    lemma_word(rest, digits.len() as int);
    assert(rest.take(digits.len() as int) =~= digits);
    law_decimal_reads_back(n as nat);
}

proof fn lemma_digit_is_no_space(n: nat, i: int)
    requires
        0 <= i < decimal(n).len(),
    ensures
        !is_whitespace(decimal(n)[i]),
{
    law_decimal_reads_back(n);
    assert(is_digit(decimal(n)[i]));
}

proof fn lemma_gap(gap: Seq<char>, rest: Seq<char>, n: u64)
    requires
        forall|i: int| 0 <= i < gap.len() ==> #[trigger] gap[i] == ' ',
        decimal(n as nat).is_prefix_of(rest),
    ensures
        trimmed_start(gap + rest) == rest,
    decreases gap.len(),
{
    law_decimal_reads_back(n as nat);
    lemma_digit_is_no_space(n as nat, 0);
    if gap.len() == 0 {
        assert(gap + rest =~= rest);
        assert(rest[0] == decimal(n as nat)[0]);
    } else {
        let less = gap.drop_first();
        assert forall|i: int| 0 <= i < less.len() implies #[trigger] less[i] == ' ' by {
            assert(less[i] == gap[i + 1]);
        }
        lemma_gap(less, rest, n);
        assert((gap + rest).drop_first() =~= less + rest);
        assert((gap + rest)[0] == ' ');
    }
}

}
