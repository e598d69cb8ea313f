//! How a pattern's body is read.
//!
//! A body is read from the left, one item at a time. An item is an escaped
//! character, a character class, or a single character, which may open or
//! close a brace group.
use vstd::prelude::*;

verus! {

/// How deep the braces of a pattern may nest. Each level takes stack while the
/// pattern is turned into a regular expression, and again when it is dropped.
///
/// A pattern with deeper braces is skipped as invalid. The matcher compiles no
/// regular expression that nests more than a quarter as deep, but braces with
/// nothing in them are not written into it: a pattern with deeper braces that
/// are empty is skipped although the matcher would take it.
pub const MAX_BRACE_DEPTH: usize = 1000;

/// Where the first `]` at or after `from` stands, or -1 where there is none.
pub open spec fn bracket_from(s: Seq<char>, from: int) -> int
    decreases s.len() - from,
{
    if from >= s.len() {
        -1
    } else if s[from] == ']' {
        from
    } else {
        bracket_from(s, from + 1)
    }
}

/// Whether the class that the `[` at `i` would open is negated.
pub open spec fn is_negated_class(s: Seq<char>, i: int) -> bool {
    i + 1 < s.len() && (s[i + 1] == '!' || s[i + 1] == '^')
}

/// Where the first member of the class that the `[` at `i` would open stands.
pub open spec fn class_start(s: Seq<char>, i: int) -> int {
    if is_negated_class(s, i) {
        i + 2
    } else {
        i + 1
    }
}

/// Where the class that the `[` at `i` would open is closed: at the first `]`
/// that is not its first member.
pub open spec fn class_end(s: Seq<char>, i: int) -> int {
    bracket_from(s, class_start(s, i) + 1)
}

/// Whether a character class stands at `i`; a `[` that is never closed stands
/// for itself.
pub open spec fn is_class(s: Seq<char>, i: int) -> bool {
    s[i] == '[' && i < class_end(s, i) < s.len()
}

/// Where the item after the one at `i` stands.
pub open spec fn after_item(s: Seq<char>, i: int) -> int {
    if s[i] == '\\' {
        i + 2
    } else if is_class(s, i) {
        class_end(s, i) + 1
    } else {
        i + 1
    }
}

/// How many braces are open after the item that starts with `c`.
pub open spec fn depth_after(c: char, depth: nat) -> nat {
    if c == '{' {
        depth + 1
    } else if c == '}' && depth > 0 {
        (depth - 1) as nat
    } else {
        depth
    }
}

/// The most braces that are open at once in what is read of `s` from `i` on,
/// where `depth` are open.
pub open spec fn depth_from(s: Seq<char>, i: int, depth: nat) -> nat
    decreases s.len() + 1 - i,
{
    if i >= s.len() {
        depth
    } else {
        let rest = depth_from(s, after_item(s, i), depth_after(s[i], depth));
        if rest > depth {
            rest
        } else {
            depth
        }
    }
}

/// How deep the braces of `s` nest.
pub open spec fn brace_depth(s: Seq<char>) -> nat {
    depth_from(s, 0, 0)
}

/// Whether the ranges of the class members from `j` up to `end` ascend, where
/// the range that was read last starts at `low`, and `open` tells whether its
/// end is still to be read.
pub open spec fn ranges_ascend(s: Seq<char>, j: int, end: int, low: char, open: bool) -> bool
    decreases end - j,
{
    if j >= end {
        true
    } else if open {
        low <= s[j] && ranges_ascend(s, j + 1, end, low, false)
    } else if s[j] == '-' {
        ranges_ascend(s, j + 1, end, low, true)
    } else {
        ranges_ascend(s, j + 1, end, s[j], false)
    }
}

/// Whether the ranges that are read behind the `[` at `i` ascend: those of its
/// class, or of all that follows where the class is never closed.
pub open spec fn class_ascends(s: Seq<char>, i: int) -> bool {
    let end: int = if is_class(s, i) {
        class_end(s, i)
    } else {
        s.len() as int
    };
    let start = class_start(s, i);
    start < end ==> ranges_ascend(s, start + 1, end, s[start], false)
}

/// Whether what is read of `s` from `i` on, where `depth` braces are open, is
/// a valid pattern: every brace is closed and none is closed twice, nothing
/// ends in a bare escape, and all ranges ascend. Behind a `[` that is never
/// closed, which `unclosed` tells, no further one is tried.
pub open spec fn is_valid_from(s: Seq<char>, i: int, depth: nat, unclosed: bool) -> bool
    decreases s.len() + 1 - i,
{
    if i >= s.len() {
        depth == 0
    } else {
        &&& s[i] == '\\' ==> i + 1 < s.len()
        &&& s[i] == '}' ==> depth > 0
        &&& s[i] == '[' && !unclosed ==> class_ascends(s, i)
        &&& is_valid_from(
            s,
            after_item(s, i),
            depth_after(s[i], depth),
            unclosed || (s[i] == '[' && !is_class(s, i)),
        )
    }
}

/// Whether `s` is a valid pattern.
pub open spec fn is_valid(s: Seq<char>) -> bool {
    is_valid_from(s, 0, 0, false)
}

/// Whether `s` has none of the characters that a pattern can misuse.
pub open spec fn is_simple(s: Seq<char>) -> bool {
    forall|i: int|
        0 <= i < s.len() ==> #[trigger] s[i] != '[' && s[i] != '{' && s[i] != '}' && s[i] != '\\'
}

/// Whether the class at `i` cannot stand for a separator: it is not negated,
/// it does not list `/`, and none of its ranges runs across it.
pub open spec fn class_excludes_slash(s: Seq<char>, i: int) -> bool {
    &&& !is_negated_class(s, i)
    &&& forall|j: int| i < j < class_end(s, i) ==> #[trigger] s[j] != '/'
    &&& forall|j: int|
        i + 1 < j < class_end(s, i) - 1 && #[trigger] s[j] == '-' ==> s[j - 1] > '/' || s[j + 1]
            < '/'
}

/// Whether `s` starts or ends with the class at `i`.
pub open spec fn is_edge_class(s: Seq<char>, i: int) -> bool {
    i == 0 || class_end(s, i) + 1 == s.len()
}

/// Whether no class in what is read of `s` from `i` on can stand for a
/// separator; where `inside` is set, a class at either end of `s` may.
pub open spec fn has_slash_free_classes(s: Seq<char>, i: int, inside: bool) -> bool
    decreases s.len() + 1 - i,
{
    i < s.len() ==> (is_class(s, i) ==> class_excludes_slash(s, i) || (inside && is_edge_class(
        s,
        i,
    ))) && has_slash_free_classes(s, after_item(s, i), inside)
}

/// Whether `s` has a `**` right behind an escaped `{` or `,`, and a brace
/// besides: inside braces such a `**` stands for whole components.
pub open spec fn has_escaped_recursion(s: Seq<char>) -> bool {
    exists|i: int, j: int|
        0 <= i < s.len() - 3 && 0 <= j < s.len() && j != i + 1 && #[trigger] s[i] == '\\' && (s[i
            + 1] == '{' || s[i + 1] == ',') && s[i + 2] == '*' && s[i + 3] == '*' && #[trigger] s[j]
            == '{'
}

/// Whether nothing in `s` but a written `/` can stand for a separator.
pub open spec fn is_slash_safe(s: Seq<char>) -> bool {
    (s.contains('[') ==> has_slash_free_classes(s, 0, false)) && !has_escaped_recursion(s)
}

/// Whether nothing in `s` but a written `/`, and a class at either end of it,
/// can stand for a separator.
pub open spec fn is_slash_safe_inside(s: Seq<char>) -> bool {
    (s.contains('[') ==> has_slash_free_classes(s, 0, true)) && !has_escaped_recursion(s)
}

/// Whether the item at `i` is a separator, escaped or not.
pub open spec fn is_slash_item(s: Seq<char>, i: int) -> bool {
    s[i] == '/' || (s[i] == '\\' && i + 1 < s.len() && s[i + 1] == '/')
}

/// Whether what is read of `s` from `i` on, where `depth` braces are open, has
/// a separator outside all classes and braces.
pub open spec fn has_free_slash_from(s: Seq<char>, i: int, depth: nat) -> bool
    decreases s.len() + 1 - i,
{
    i < s.len() && ((depth == 0 && is_slash_item(s, i)) || has_free_slash_from(
        s,
        after_item(s, i),
        depth_after(s[i], depth),
    ))
}

/// `s` without the `**/` that it starts with, however often.
pub open spec fn without_recursive_prefix(s: Seq<char>) -> Seq<char>
    decreases s.len(),
{
    if seq!['*', '*', '/'].is_prefix_of(s) {
        without_recursive_prefix(s.skip(3))
    } else {
        s
    }
}

/// Whether `s` has a separator that every path it matches must have too: one
/// outside all classes and braces, which no leading `**/` takes in.
pub open spec fn has_free_slash(s: Seq<char>) -> bool {
    has_free_slash_from(without_recursive_prefix(s), 0, 0)
}

/// A free separator is a separator.
pub proof fn lemma_free_slash_is_slash(s: Seq<char>)
    requires
        has_free_slash(s),
    ensures
        s.contains('/'),
    decreases s.len(),
{
    if seq!['*', '*', '/'].is_prefix_of(s) {
        assert(s[2] == seq!['*', '*', '/'][2]);
    } else {
        lemma_free_slash_from(s, 0, 0);
    }
}

proof fn lemma_free_slash_from(s: Seq<char>, i: int, depth: nat)
    requires
        0 <= i,
        has_free_slash_from(s, i, depth),
    ensures
        s.contains('/'),
    decreases s.len() + 1 - i,
{
    if depth == 0 && is_slash_item(s, i) {
        assert(s[i] == '/' || s[i + 1] == '/');
    } else {
        lemma_free_slash_from(s, after_item(s, i), depth_after(s[i], depth));
    }
}

/// Without an opening brace nothing nests.
pub proof fn lemma_brace_free(s: Seq<char>, i: int, depth: nat)
    requires
        0 <= i,
        forall|j: int| 0 <= j < s.len() ==> #[trigger] s[j] != '{',
    ensures
        depth_from(s, i, depth) == depth,
    decreases s.len() + 1 - i,
{
    if i < s.len() {
        lemma_brace_free(s, after_item(s, i), depth_after(s[i], depth));
    }
}

/// What has nothing to misuse is valid.
pub proof fn lemma_simple_is_valid(s: Seq<char>)
    requires
        is_simple(s),
    ensures
        is_valid(s),
{
    lemma_simple_is_valid_from(s, 0, false);
}

proof fn lemma_simple_is_valid_from(s: Seq<char>, i: int, unclosed: bool)
    requires
        is_simple(s),
        0 <= i,
    ensures
        is_valid_from(s, i, 0, unclosed),
    decreases s.len() + 1 - i,
{
    if i < s.len() {
        lemma_simple_is_valid_from(s, after_item(s, i), unclosed);
    }
}

/// No `]` is found where there is none.
proof fn lemma_no_bracket(s: Seq<char>, from: int)
    requires
        0 <= from,
        forall|j: int| from <= j < s.len() ==> s[j] != ']',
    ensures
        bracket_from(s, from) == -1,
    decreases s.len() - from,
{
    if from < s.len() {
        lemma_no_bracket(s, from + 1);
    }
}

/// A `]` that is found stands at or after where the search began.
proof fn lemma_bracket_is_ahead(s: Seq<char>, from: int)
    requires
        0 <= from,
    ensures
        bracket_from(s, from) == -1 || from <= bracket_from(s, from) < s.len(),
    decreases s.len() - from,
{
    if from < s.len() {
        lemma_bracket_is_ahead(s, from + 1);
    }
}

/// Where the item after the one at `i` stands, or the end where there is none,
/// given in `last` a place behind the last `]`.
fn next_item(chars: &Vec<char>, i: usize, last: usize) -> (next: usize)
    requires
        i < chars@.len(),
        last <= chars@.len(),
        forall|j: int| last <= j < chars@.len() ==> chars@[j] != ']',
    ensures
        i < next <= chars@.len(),
        next == after_item(chars@, i as int) || next == chars@.len() < after_item(
            chars@,
            i as int,
        ),
{
    let len: usize = chars.len();
    let c = chars[i];
    if c == '\\' && i + 1 < len {
        return i + 2;
    }
    if c != '[' {
        return i + 1;
    }
    let negated = i + 1 < len && (chars[i + 1] == '!' || chars[i + 1] == '^');
    let mut j: usize = i + 1;
    if negated {
        j = j + 1;
    }
    proof {
        lemma_bracket_is_ahead(chars@, class_start(chars@, i as int) + 1);
    }
    if j >= last {
        proof {
            lemma_no_bracket(chars@, j as int + 1);
        }
        return i + 1;
    }
    j = j + 1;
    while j < last && chars[j] != ']'
        invariant
            last <= chars@.len(),
            j <= last,
            bracket_from(chars@, class_start(chars@, i as int) + 1) == bracket_from(
                chars@,
                j as int,
            ),
        decreases last - j,
    {
        j = j + 1;
    }
    if j == last {
        proof {
            lemma_no_bracket(chars@, j as int);
        }
        return i + 1;
    }
    j + 1
}

/// How deep the braces of `text` nest.
pub fn count_brace_depth(text: &str) -> (depth: usize)
    ensures
        depth == brace_depth(text@),
{
    let mut chars: Vec<char> = Vec::new();
    let mut last: usize = 0;
    for c in it: text.chars()
        invariant
            it.seq() == text@,
            chars@ == text@.take(it.index() as int),
            last <= chars@.len(),
            forall|j: int| last <= j < chars@.len() ==> chars@[j] != ']',
    {
        assert(text@.take(it.index() as int + 1) =~= text@.take(it.index() as int).push(c));
        chars.push(c);
        if c == ']' {
            last = chars.len();
        }
    }
    assert(text@.take(text@.len() as int) =~= text@);
    let mut i: usize = 0;
    let mut depth: usize = 0;
    let mut deepest: usize = 0;
    while i < chars.len()
        invariant
            chars@ == text@,
            last <= chars@.len(),
            forall|j: int| last <= j < chars@.len() ==> chars@[j] != ']',
            i <= chars@.len(),
            depth <= deepest <= i,
            brace_depth(text@) == if depth_from(text@, i as int, depth as nat) > deepest {
                depth_from(text@, i as int, depth as nat)
            } else {
                deepest as nat
            },
        decreases chars@.len() - i,
    {
        let c = chars[i];
        let next = next_item(&chars, i, last);
        if c == '{' {
            depth = depth + 1;
        } else if c == '}' && depth > 0 {
            depth = depth - 1;
        }
        assert(depth_from(text@, next as int, depth as nat) == depth_from(
            text@,
            after_item(text@, i as int),
            depth as nat,
        ));
        if depth > deepest {
            deepest = depth;
        }
        i = next;
    }
    deepest
}

/// **Law.** How deep braces nest, read from the left: characters without a
/// meaning, escaped characters and braces that close do not add to it, and a
/// brace that opens adds at most one level.
pub proof fn law_depth_is_read_from_the_left(c: char, s: Seq<char>)
    ensures
        brace_depth(Seq::empty()) == 0,
        brace_depth(seq!['\\', c] + s) == brace_depth(s),
        c != '\\' && c != '[' && c != '{' ==> brace_depth(seq![c] + s) == brace_depth(s),
        1 <= brace_depth(seq!['{'] + s),
        brace_depth(s) <= brace_depth(seq!['{'] + s) <= brace_depth(s) + 1,
{
    let (one, two, open) = (seq![c], seq!['\\', c], seq!['{']);
    lemma_depth_shift(one, s, 0, 0);
    lemma_depth_shift(two, s, 0, 0);
    lemma_depth_shift(open, s, 0, 1);
    lemma_depth_is_monotone(s, 0, 0);
    lemma_depth_is_reached(s, 0, 1);
    assert((one + s)[0] == c && (two + s)[0] == '\\' && (open + s)[0] == '{');
}

/// **Law.** What stands in a class nests nothing.
pub proof fn law_classes_nest_nothing(members: Seq<char>, s: Seq<char>)
    requires
        members.len() > 0,
        members[0] != '!' && members[0] != '^',
        forall|i: int| 0 < i < members.len() ==> #[trigger] members[i] != ']',
    ensures
        brace_depth(seq!['['] + members + seq![']'] + s) == brace_depth(s),
{
    let class = seq!['['] + members + seq![']'];
    lemma_leading_class(members, s);
    lemma_depth_shift(class, s, 0, 0);
    lemma_depth_is_reached(s, 0, 0);
}

/// **Law.** Braces nest no deeper than there are braces that open, and just so
/// deep where those stand in a row and nothing behind them is escaped or
/// bracketed.
pub proof fn law_depth_counts_braces(n: nat, s: Seq<char>)
    ensures
        brace_depth(s) <= s.filter(|c: char| c == '{').len(),
        (forall|i: int|
            0 <= i < s.len() ==> #[trigger] s[i] != '{' && s[i] != '[' && s[i] != '\\')
            ==> brace_depth(Seq::new(n, |i: int| '{') + s) == n,
{
    lemma_depth_at_most_braces(s, 0, 0);
    assert(s.skip(0) =~= s);
    if forall|i: int|
        0 <= i < s.len() ==> #[trigger] s[i] != '{' && s[i] != '[' && s[i] != '\\' {
        lemma_open_braces(n, s, 0);
        lemma_brace_free(s, 0, n);
    }
}

/// **Law.** Braces round a valid pattern are one level more, and patterns one
/// behind the other nest as deep as the deeper one.
///
/// Left out are patterns with a `[` that is not closed in them.
pub proof fn law_groups_are_one_level(inner: Seq<char>, s: Seq<char>)
    requires
        is_valid(inner),
        closes_brackets(inner, 0),
    ensures
        brace_depth(seq!['{'] + inner + seq!['}']) == brace_depth(inner) + 1,
        brace_depth(inner + s) == if brace_depth(inner) > brace_depth(s) {
            brace_depth(inner)
        } else {
            brace_depth(s)
        },
{
    lemma_depth_part(inner, s, 0, 0, 0, false);
    lemma_depth_shift(inner, s, 0, 0);
    let end = seq!['}'];
    let group = seq!['{'] + (inner + end);
    assert(group =~= seq!['{'] + inner + seq!['}']);
    assert(group[0] == '{' && end[0] == '}');
    lemma_depth_shift(seq!['{'], inner + end, 0, 1);
    lemma_depth_part(inner, end, 0, 0, 1, false);
    lemma_depth_shift(inner, end, 0, 1);
    lemma_depth_is_reached(inner, 0, 0);
    reveal_with_fuel(depth_from, 2);
    assert(depth_from(end, 0, 1) == 1);
}

/// **Law.** Which patterns are valid, read from the left: characters without a
/// meaning and escaped characters may stand anywhere, nothing ends in a bare
/// escape, and no brace is closed that was not opened.
pub proof fn law_validity_is_read_from_the_left(c: char, s: Seq<char>)
    ensures
        is_valid(Seq::empty()),
        is_valid(seq!['\\', c] + s) == is_valid(s),
        c != '\\' && c != '[' && c != '{' && c != '}' ==> is_valid(seq![c] + s) == is_valid(s),
        !is_valid(seq!['\\']),
        !is_valid(seq!['}'] + s),
{
    let (one, two) = (seq![c], seq!['\\', c]);
    lemma_valid_shift(one, s, 0, 0, false);
    lemma_valid_shift(two, s, 0, 0, false);
    assert((one + s)[0] == c && (two + s)[0] == '\\' && (seq!['}'] + s)[0] == '}');
}

/// **Law.** A class that is closed may list any characters, and ranges that do
/// not run backwards; what follows it is read on.
pub proof fn law_valid_classes(members: Seq<char>, low: char, high: char, s: Seq<char>)
    requires
        members.len() > 0,
        members[0] != '!' && members[0] != '^',
        forall|i: int| 0 < i < members.len() ==> #[trigger] members[i] != ']' && members[i] != '-',
        low != '!' && low != '^',
        high != ']',
    ensures
        is_valid(seq!['['] + members + seq![']'] + s) == is_valid(s),
        is_valid(seq!['[', '!'] + members + seq![']'] + s) == is_valid(s),
        is_valid(seq!['[', '^'] + members + seq![']'] + s) == is_valid(s),
        is_valid(seq!['[', low, '-', high, ']'] + s) == (low <= high && is_valid(s)),
{
    lemma_negated_class('!', members, s);
    lemma_negated_class('^', members, s);
    let class = seq!['['] + members + seq![']'];
    lemma_leading_class(members, s);
    lemma_valid_shift(class, s, 0, 0, false);
    let text = class + s;
    assert forall|j: int| 2 <= j < class.len() - 1 implies #[trigger] text[j] != '-' by {
        assert(text[j] == members[j - 1]);
    }
    lemma_no_ranges(text, 2, class.len() - 1, text[1]);
    let range = seq![low, '-', high];
    let ranged = seq!['['] + range + seq![']'];
    assert(ranged =~= seq!['[', low, '-', high, ']']);
    lemma_leading_class(range, s);
    lemma_valid_shift(ranged, s, 0, 0, false);
    let other = ranged + s;
    assert(other[1] == low && other[2] == '-' && other[3] == high && other[4] == ']');
    reveal_with_fuel(ranges_ascend, 3);
}

/// **Law.** A class may list further characters, and further ranges that do not
/// run backwards.
pub proof fn law_classes_grow(members: Seq<char>, c: char, low: char, high: char, s: Seq<char>)
    requires
        members.len() > 0,
        members[0] != '!' && members[0] != '^',
        forall|i: int| 0 < i < members.len() ==> #[trigger] members[i] != ']',
        members[members.len() - 1] != '-',
        c != ']' && c != '-',
        low != ']' && low != '-',
        high != ']',
    ensures
        is_valid(seq!['['] + members.push(c) + seq![']'] + s) == is_valid(
            seq!['['] + members + seq![']'] + s,
        ),
        is_valid(seq!['['] + (members + seq![low, '-', high]) + seq![']'] + s) == (low <= high
            && is_valid(seq!['['] + members + seq![']'] + s)),
{
    let (one, ranged) = (members.push(c), members + seq![low, '-', high]);
    lemma_class_is_read(members, s);
    lemma_class_is_read(one, s);
    assert(ranged[0] == members[0]);
    assert forall|i: int| 0 < i < ranged.len() implies #[trigger] ranged[i] != ']' by {
        if i < members.len() {
            assert(ranged[i] == members[i]);
        }
    }
    lemma_class_is_read(ranged, s);
    let n: int = members.len() as int;
    lemma_ranges_agree(members, one, 1, n, members[0], false);
    lemma_ranges_agree(members, ranged, 1, n, members[0], false);
    lemma_ranges_split(one, 1, n, n + 1, members[0], false);
    lemma_ranges_split(ranged, 1, n, n + 3, members[0], false);
    reveal_with_fuel(ranges_ascend, 4);
    assert(ranged[n] == low && ranged[n + 1] == '-' && ranged[n + 2] == high);
}

/// **Law.** A `[` that is never closed stands for itself.
///
/// Left out is what has hyphens behind it, which are tried as ranges.
pub proof fn law_unclosed_brackets_stand_for_themselves(s: Seq<char>)
    requires
        !s.contains(']'),
        !s.contains('-'),
    ensures
        is_valid(seq!['['] + s) == is_valid(s),
{
    let text = seq!['['] + s;
    assert forall|i: int| 0 <= i < s.len() implies #[trigger] s[i] != ']' && s[i] != '-' by {
        assert(s.contains(s[i]));
    }
    assert forall|i: int| 0 <= i < text.len() implies #[trigger] text[i] != ']' && text[i]
        != '-' by {
        if i > 0 {
            assert(text[i] == s[i - 1]);
        }
    }
    lemma_no_bracket(text, class_start(text, 0) + 1);
    let start = class_start(text, 0);
    if start < text.len() {
        lemma_no_ranges(text, start + 1, text.len() as int, text[start]);
    }
    lemma_valid_shift(seq!['['], s, 0, 0, true);
    lemma_unclosed_is_no_matter(s, 0, 0);
}

/// Whether every `[` that is read of `s` from `i` on is closed.
pub open spec fn closes_brackets(s: Seq<char>, i: int) -> bool
    decreases s.len() + 1 - i,
{
    i < s.len() ==> (s[i] == '[' ==> is_class(s, i)) && closes_brackets(s, after_item(s, i))
}

/// **Law.** Valid patterns may stand one behind the other. One may be put in
/// braces, and is not valid if they are not closed.
///
/// Left out are patterns with a `[` that is not closed in them.
pub proof fn law_valid_groups(inner: Seq<char>, s: Seq<char>)
    requires
        is_valid(inner),
        closes_brackets(inner, 0),
    ensures
        is_valid(seq!['{'] + inner + seq!['}'] + s) == is_valid(s),
        is_valid(inner + s) == is_valid(s),
        !is_valid(seq!['{'] + inner),
{
    lemma_valid_part(inner, s, 0, 0, 0, false);
    lemma_valid_shift(inner, s, 0, 0, false);
    let end = seq!['}'] + s;
    let group = seq!['{'] + (inner + end);
    assert(group =~= seq!['{'] + inner + seq!['}'] + s);
    lemma_valid_shift(seq!['{'], inner + end, 0, 1, false);
    lemma_valid_part(inner, end, 0, 0, 1, false);
    lemma_valid_shift(inner, end, 0, 1, false);
    lemma_valid_shift(seq!['}'], s, 0, 0, false);
    assert(group[0] == '{' && end[0] == '}');
    let none = Seq::<char>::empty();
    lemma_valid_shift(seq!['{'], inner, 0, 1, false);
    assert((seq!['{'] + inner)[0] == '{');
    assert(inner + none =~= inner);
    lemma_valid_part(inner, none, 0, 0, 1, false);
}

/// Reading the rest of a pattern does not depend on what stands before it.
proof fn lemma_bracket_shift(a: Seq<char>, s: Seq<char>, from: int)
    requires
        0 <= from,
    ensures
        bracket_from(a + s, a.len() + from) == if bracket_from(s, from) == -1 {
            -1
        } else {
            a.len() + bracket_from(s, from)
        },
    decreases s.len() - from,
{
    if from < s.len() {
        lemma_bracket_is_ahead(s, from + 1);
        lemma_bracket_shift(a, s, from + 1);
    }
}

proof fn lemma_item_shift(a: Seq<char>, s: Seq<char>, i: int)
    requires
        0 <= i < s.len(),
    ensures
        is_class(a + s, a.len() + i) == is_class(s, i),
        is_class(s, i) ==> class_end(a + s, a.len() + i) == a.len() + class_end(s, i),
        class_start(a + s, a.len() + i) == a.len() + class_start(s, i),
        after_item(a + s, a.len() + i) == a.len() + after_item(s, i),
{
    lemma_bracket_shift(a, s, class_start(s, i) + 1);
    lemma_bracket_is_ahead(s, class_start(s, i) + 1);
}

proof fn lemma_depth_shift(a: Seq<char>, s: Seq<char>, i: int, depth: nat)
    requires
        0 <= i,
    ensures
        depth_from(a + s, a.len() + i, depth) == depth_from(s, i, depth),
    decreases s.len() + 1 - i,
{
    if i < s.len() {
        lemma_item_shift(a, s, i);
        lemma_depth_shift(a, s, after_item(s, i), depth_after(s[i], depth));
    }
}

proof fn lemma_ranges_shift(a: Seq<char>, s: Seq<char>, j: int, end: int, low: char, open: bool)
    requires
        0 <= j,
        end <= s.len(),
    ensures
        ranges_ascend(a + s, a.len() + j, a.len() + end, low, open) == ranges_ascend(
            s,
            j,
            end,
            low,
            open,
        ),
    decreases end - j,
{
    if j < end {
        assert((a + s)[a.len() + j] == s[j]);
        lemma_ranges_shift(a, s, j + 1, end, low, false);
        lemma_ranges_shift(a, s, j + 1, end, low, true);
        lemma_ranges_shift(a, s, j + 1, end, s[j], false);
    }
}

proof fn lemma_valid_shift(a: Seq<char>, s: Seq<char>, i: int, depth: nat, unclosed: bool)
    requires
        0 <= i,
    ensures
        is_valid_from(a + s, a.len() + i, depth, unclosed) == is_valid_from(s, i, depth, unclosed),
    decreases s.len() + 1 - i,
{
    if i < s.len() {
        lemma_item_shift(a, s, i);
        let start = class_start(s, i);
        let end: int = if is_class(s, i) {
            class_end(s, i)
        } else {
            s.len() as int
        };
        if start < end {
            lemma_ranges_shift(a, s, start + 1, end, s[start], false);
            assert((a + s)[a.len() + start] == s[start]);
        }
        lemma_valid_shift(
            a,
            s,
            after_item(s, i),
            depth_after(s[i], depth),
            unclosed || (s[i] == '[' && !is_class(s, i)),
        );
    }
}

/// A class at the start of a pattern is read as one item.
proof fn lemma_leading_class(members: Seq<char>, s: Seq<char>)
    requires
        members.len() > 0,
        members[0] != '!' && members[0] != '^',
        forall|i: int| 0 < i < members.len() ==> #[trigger] members[i] != ']',
    ensures
        ({
            let text = seq!['['] + members + seq![']'] + s;
            &&& text[0] == '['
            &&& class_start(text, 0) == 1
            &&& class_end(text, 0) == members.len() + 1
            &&& is_class(text, 0)
            &&& after_item(text, 0) == members.len() + 2
        }),
{
    let text = seq!['['] + members + seq![']'] + s;
    assert(text[1] == members[0]);
    assert forall|j: int| 2 <= j < members.len() + 1 implies #[trigger] text[j] != ']' by {
        assert(text[j] == members[j - 1]);
    }
    assert(text[members.len() as int + 1] == ']');
    lemma_first_bracket(text, 2, members.len() as int + 1);
}

proof fn lemma_first_bracket(s: Seq<char>, from: int, at: int)
    requires
        0 <= from <= at < s.len(),
        forall|j: int| from <= j < at ==> #[trigger] s[j] != ']',
        s[at] == ']',
    ensures
        bracket_from(s, from) == at,
    decreases at - from,
{
    if from < at {
        lemma_first_bracket(s, from + 1, at);
    }
}

/// Without a hyphen there is no range.
proof fn lemma_no_ranges(s: Seq<char>, j: int, end: int, low: char)
    requires
        0 <= j,
        end <= s.len(),
        forall|k: int| j <= k < end ==> #[trigger] s[k] != '-',
    ensures
        ranges_ascend(s, j, end, low, false),
    decreases end - j,
{
    if j < end {
        lemma_no_ranges(s, j + 1, end, s[j]);
    }
}

/// Without `]` and `-` it does not matter whether a `[` was left open.
proof fn lemma_unclosed_is_no_matter(s: Seq<char>, i: int, depth: nat)
    requires
        0 <= i,
        forall|j: int| 0 <= j < s.len() ==> #[trigger] s[j] != ']' && s[j] != '-',
    ensures
        is_valid_from(s, i, depth, true) == is_valid_from(s, i, depth, false),
    decreases s.len() + 1 - i,
{
    if i < s.len() {
        lemma_no_bracket(s, class_start(s, i) + 1);
        let start = class_start(s, i);
        if start < s.len() {
            lemma_no_ranges(s, start + 1, s.len() as int, s[start]);
        }
        lemma_unclosed_is_no_matter(s, after_item(s, i), depth_after(s[i], depth));
    }
}

/// A negated class without hyphens is valid.
proof fn lemma_negated_class(mark: char, members: Seq<char>, s: Seq<char>)
    requires
        mark == '!' || mark == '^',
        members.len() > 0,
        forall|i: int| 0 < i < members.len() ==> #[trigger] members[i] != ']' && members[i] != '-',
    ensures
        is_valid(seq!['[', mark] + members + seq![']'] + s) == is_valid(s),
{
    let class = seq!['[', mark] + members + seq![']'];
    let text = class + s;
    let n: int = members.len() as int;
    assert(text[0] == '[' && text[1] == mark && text[2] == members[0]);
    assert forall|j: int| 3 <= j < n + 2 implies #[trigger] text[j] != ']' && text[j] != '-' by {
        assert(text[j] == members[j - 2]);
    }
    assert(text[n + 2] == ']');
    lemma_first_bracket(text, 3, n + 2);
    lemma_no_ranges(text, 3, n + 2, text[2]);
    lemma_valid_shift(class, s, 0, 0, false);
}

/// A class at the start of a pattern is valid if its ranges ascend.
proof fn lemma_class_is_read(members: Seq<char>, s: Seq<char>)
    requires
        members.len() > 0,
        members[0] != '!' && members[0] != '^',
        forall|i: int| 0 < i < members.len() ==> #[trigger] members[i] != ']',
    ensures
        is_valid(seq!['['] + members + seq![']'] + s) == (ranges_ascend(
            members,
            1,
            members.len() as int,
            members[0],
            false,
        ) && is_valid(s)),
{
    let class = seq!['['] + members + seq![']'];
    let text = class + s;
    lemma_leading_class(members, s);
    lemma_valid_shift(class, s, 0, 0, false);
    let n: int = members.len() as int;
    lemma_ranges_shift(seq!['['], members + seq![']'] + s, 1, n, members[0], false);
    assert(seq!['['] + (members + seq![']'] + s) =~= text);
    lemma_ranges_agree(members, members + seq![']'] + s, 1, n, members[0], false);
    assert(text[1] == members[0]);
}

/// Ranges are read from the members alone.
proof fn lemma_ranges_agree(
    s: Seq<char>,
    t: Seq<char>,
    j: int,
    end: int,
    low: char,
    open: bool,
)
    requires
        0 <= j,
        end <= s.len(),
        end <= t.len(),
        forall|k: int| 0 <= k < end ==> #[trigger] s[k] == t[k],
    ensures
        ranges_ascend(s, j, end, low, open) == ranges_ascend(t, j, end, low, open),
    decreases end - j,
{
    if j < end {
        assert(s[j] == t[j]);
        lemma_ranges_agree(s, t, j + 1, end, low, false);
        lemma_ranges_agree(s, t, j + 1, end, low, true);
        lemma_ranges_agree(s, t, j + 1, end, s[j], false);
    }
}

/// Ranges may be read in two parts where no hyphen stands between them.
proof fn lemma_ranges_split(s: Seq<char>, j: int, middle: int, end: int, low: char, open: bool)
    requires
        0 <= j <= middle < end <= s.len(),
        j == middle ==> !open,
        j < middle ==> s[middle - 1] != '-',
        s[middle] != '-',
    ensures
        ranges_ascend(s, j, end, low, open) == (ranges_ascend(s, j, middle, low, open)
            && ranges_ascend(s, middle + 1, end, s[middle], false)),
    decreases middle - j,
{
    if j < middle {
        if open {
            lemma_ranges_split(s, j + 1, middle, end, low, false);
        } else if s[j] == '-' {
            lemma_ranges_split(s, j + 1, middle, end, low, true);
        } else {
            lemma_ranges_split(s, j + 1, middle, end, s[j], false);
        }
    }
}

/// A `]` that is found stays where it is when more follows.
proof fn lemma_bracket_stays(a: Seq<char>, b: Seq<char>, from: int)
    requires
        0 <= from,
        bracket_from(a, from) != -1,
    ensures
        bracket_from(a + b, from) == bracket_from(a, from),
    decreases a.len() - from,
{
    if from < a.len() {
        assert((a + b)[from] == a[from]);
        if a[from] != ']' {
            lemma_bracket_stays(a, b, from + 1);
        }
    }
}

/// A valid part that closes its brackets leaves the braces as they were.
proof fn lemma_valid_part(
    a: Seq<char>,
    b: Seq<char>,
    i: int,
    depth: nat,
    outer: nat,
    unclosed: bool,
)
    requires
        0 <= i <= a.len(),
        is_valid_from(a, i, depth, unclosed),
        closes_brackets(a, i),
    ensures
        is_valid_from(a + b, i, outer + depth, unclosed) == is_valid_from(
            a + b,
            a.len() as int,
            outer,
            unclosed,
        ),
    decreases a.len() - i,
{
    if i < a.len() {
        assert((a + b)[i] == a[i]);
        if a[i] == '[' {
            let start = class_start(a, i);
            lemma_bracket_is_ahead(a, start + 1);
            lemma_bracket_stays(a, b, start + 1);
            assert(is_negated_class(a + b, i) == is_negated_class(a, i)) by {
                assert(i + 1 < a.len());
                assert((a + b)[i + 1] == a[i + 1]);
            }
            let end = class_end(a, i);
            assert((a + b)[start] == a[start]);
            lemma_ranges_agree(a, a + b, start + 1, end, a[start], false);
        }
        lemma_valid_part(a, b, after_item(a, i), depth_after(a[i], depth), outer, unclosed);
    }
}

/// A valid part that closes its brackets adds its own levels, and then the rest
/// is read.
proof fn lemma_depth_part(
    a: Seq<char>,
    b: Seq<char>,
    i: int,
    depth: nat,
    outer: nat,
    unclosed: bool,
)
    requires
        0 <= i <= a.len(),
        is_valid_from(a, i, depth, unclosed),
        closes_brackets(a, i),
    ensures
        ({
            let own = depth_from(a, i, depth) + outer;
            let rest = depth_from(a + b, a.len() as int, outer);
            depth_from(a + b, i, outer + depth) == if own > rest {
                own
            } else {
                rest
            }
        }),
    decreases a.len() - i,
{
    if i < a.len() {
        assert((a + b)[i] == a[i]);
        if a[i] == '[' {
            let start = class_start(a, i);
            lemma_bracket_is_ahead(a, start + 1);
            lemma_bracket_stays(a, b, start + 1);
            assert(is_negated_class(a + b, i) == is_negated_class(a, i)) by {
                assert(i + 1 < a.len());
                assert((a + b)[i + 1] == a[i + 1]);
            }
        }
        lemma_depth_part(a, b, after_item(a, i), depth_after(a[i], depth), outer, unclosed);
    } else {
        lemma_depth_is_reached(a + b, i, outer);
    }
}

/// A further open brace adds at most one level.
proof fn lemma_depth_is_monotone(s: Seq<char>, i: int, depth: nat)
    requires
        0 <= i,
    ensures
        depth_from(s, i, depth) <= depth_from(s, i, depth + 1) <= depth_from(s, i, depth) + 1,
    decreases s.len() + 1 - i,
{
    if i < s.len() {
        if s[i] == '}' && depth == 0 {
            lemma_depth_is_reached(s, after_item(s, i), 0);
        } else {
            lemma_depth_is_monotone(s, after_item(s, i), depth_after(s[i], depth));
        }
    }
}

/// The braces that are open count.
proof fn lemma_depth_is_reached(s: Seq<char>, i: int, depth: nat)
    requires
        0 <= i,
    ensures
        depth_from(s, i, depth) >= depth,
{
}

/// Each level takes a brace that opens it.
proof fn lemma_depth_at_most_braces(s: Seq<char>, i: int, depth: nat)
    requires
        0 <= i,
    ensures
        i <= s.len() ==> depth_from(s, i, depth) <= depth + s.skip(i).filter(
            |c: char| c == '{',
        ).len(),
    decreases s.len() + 1 - i,
{
    let is_open = |c: char| c == '{';
    if i < s.len() {
        lemma_bracket_is_ahead(s, class_start(s, i) + 1);
        let next = after_item(s, i);
        lemma_depth_at_most_braces(s, next, depth_after(s[i], depth));
        lemma_filter_skips(s, i, i + 1);
        assert(s.skip(i).skip(1) =~= s.skip(i + 1));
        lemma_filter_first(s.skip(i));
        if next <= s.len() {
            lemma_filter_skips(s, i + 1, next);
        }
    }
}

/// Fewer characters have no more braces.
proof fn lemma_filter_skips(s: Seq<char>, i: int, j: int)
    requires
        0 <= i <= j <= s.len(),
    ensures
        s.skip(j).filter(|c: char| c == '{').len() <= s.skip(i).filter(|c: char| c == '{').len(),
    decreases j - i,
{
    if i < j {
        lemma_filter_skips(s, i + 1, j);
        assert(s.skip(i).skip(1) =~= s.skip(i + 1));
        lemma_filter_first(s.skip(i));
    }
}

/// The first character counts if it is a brace.
proof fn lemma_filter_first(s: Seq<char>)
    requires
        s.len() > 0,
    ensures
        s.filter(|c: char| c == '{').len() == s.skip(1).filter(|c: char| c == '{').len() + if s[0]
            == '{' {
            1nat
        } else {
            0nat
        },
{
    let is_open = |c: char| c == '{';
    let one = seq![s[0]];
    assert(s =~= one + s.skip(1));
    Seq::filter_distributes_over_add(one, s.skip(1), is_open);
    reveal(Seq::filter);
    assert(one.drop_last() =~= Seq::empty());
    assert(one.drop_last().filter(is_open) =~= Seq::empty());
}

/// Open braces in a row are read one by one.
proof fn lemma_open_braces(n: nat, s: Seq<char>, depth: nat)
    ensures
        depth_from(Seq::new(n, |i: int| '{') + s, 0, depth) == depth_from(s, 0, depth + n),
    decreases n,
{
    let all = Seq::new(n, |i: int| '{') + s;
    if n == 0 {
        assert(all =~= s);
    } else {
        let fewer = Seq::new((n - 1) as nat, |i: int| '{') + s;
        assert(all =~= seq!['{'] + fewer);
        lemma_depth_shift(seq!['{'], fewer, 0, depth + 1);
        lemma_open_braces((n - 1) as nat, s, depth + 1);
        lemma_depth_is_reached(s, 0, depth + n);
        assert(all[0] == '{');
    }
}

} // verus!
