//! Harvesting rules for the rule file of the game server: their text, and
//! their place between two sections of that file.

use crate::chars::{find_from, find_pattern, to_chars};
use crate::decimal::{decimal, push_decimal};
use crate::error::DemonaxError;
use vstd::prelude::*;
use vstd::slice::slice_subrange;
use vstd::string::{StrSliceExecFns, StringExecFns};

verus! {

/// One way to harvest: with which tool, from which corpse, how often, and
/// what comes of it.
#[derive(Debug, Clone)]
pub struct HarvestingData {
    pub tool_id: i32,
    pub corpse_id: i32,
    pub next_corpse_id: i32,
    pub percent_chance: i32,
    pub reward_id: i32,
    pub race_id: i32,
}

/// The rule for a harvest that succeeds: the reward is created, the corpse
/// changes, the user shimmers and the harvest is counted.
pub open spec fn success_rule_text(entry: HarvestingData) -> Seq<char> {
    "MultiUse, IsType(Obj1, "@ + decimal(entry.tool_id as int) + "), IsType(Obj2, "@ + decimal(
        entry.corpse_id as int,
    ) + "), Random("@ + decimal(entry.percent_chance as int) + ") -> Create(Obj2, "@ + decimal(
        entry.reward_id as int,
    ) + ", 0), Change(Obj2, "@ + decimal(entry.next_corpse_id as int)
        + ", 0), Effect(User, 13), IncrementHarvestingValue(User, "@ + decimal(
        entry.race_id as int,
    ) + ", 1)"@
}

/// The rule for a harvest that fails: the corpse changes and nothing else.
pub open spec fn failure_rule_text(entry: HarvestingData) -> Seq<char> {
    "MultiUse, IsType(Obj1, "@ + decimal(entry.tool_id as int) + "), IsType(Obj2, "@ + decimal(
        entry.corpse_id as int,
    ) + ") -> Change(Obj2, "@ + decimal(entry.next_corpse_id as int) + ", 0)"@
}

/// The two rules of an entry, the one for success first, on two lines.
pub open spec fn rule_text(entry: HarvestingData) -> Seq<char> {
    success_rule_text(entry) + "\n"@ + failure_rule_text(entry)
}

/// The rules of the first `n` entries, one below the other.
pub open spec fn rules_text(entries: Seq<HarvestingData>, n: int) -> Seq<char>
    decreases n,
{
    if n <= 0 || n > entries.len() {
        Seq::empty()
    } else if n == 1 {
        rule_text(entries[0])
    } else {
        rules_text(entries, n - 1) + "\n"@ + rule_text(entries[n - 1])
    }
}

/// Appends the two rules of `entry` to `out`.
fn write_rule(out: &mut String, entry: &HarvestingData)
    ensures
        final(out)@ == old(out)@ + rule_text(*entry),
{
    out.append("MultiUse, IsType(Obj1, ");
    push_decimal(out, entry.tool_id);
    out.append("), IsType(Obj2, ");
    push_decimal(out, entry.corpse_id);
    out.append("), Random(");
    push_decimal(out, entry.percent_chance);
    out.append(") -> Create(Obj2, ");
    push_decimal(out, entry.reward_id);
    out.append(", 0), Change(Obj2, ");
    push_decimal(out, entry.next_corpse_id);
    out.append(", 0), Effect(User, 13), IncrementHarvestingValue(User, ");
    push_decimal(out, entry.race_id);
    out.append(", 1)");
    assert(out@ =~= old(out)@ + success_rule_text(*entry));
    out.append("\n");
    out.append("MultiUse, IsType(Obj1, ");
    push_decimal(out, entry.tool_id);
    out.append("), IsType(Obj2, ");
    push_decimal(out, entry.corpse_id);
    out.append(") -> Change(Obj2, ");
    push_decimal(out, entry.next_corpse_id);
    out.append(", 0)");
    assert(out@ =~= old(out)@ + rule_text(*entry));
}

/// The pair of rules for one harvesting entry: the first applies when the
/// random draw passes, the second when it fails.
pub fn generate_harvesting_rule(entry: &HarvestingData) -> (text: String)
    ensures
        text@ == rule_text(*entry),
{
    let mut out = String::new();
    write_rule(&mut out, entry);
    assert(out@ =~= rule_text(*entry));
    out
}

/// The rules of all entries, in their order, one below the other.
pub fn generate_all_harvesting_rules(entries: &[HarvestingData]) -> (text: String)
    ensures
        text@ == rules_text(entries@, entries@.len() as int),
{
    let mut out = String::new();
    let mut i: usize = 0;
    assert(out@ =~= rules_text(entries@, 0));
    while i < entries.len()
        invariant
            i <= entries@.len(),
            out@ == rules_text(entries@, i as int),
        decreases entries@.len() - i,
    {
        if i > 0 {
            out.append("\n");
        }
        write_rule(&mut out, &entries[i]);
        assert(out@ =~= rules_text(entries@, i + 1));
        i += 1;
    }
    out
}

// ------------------------------------------------------------------ lines

/// The position of the first line feed at or after `i`; `s.len()` where
/// there is none.
pub open spec fn line_feed_from(s: Seq<char>, i: int) -> int
    decreases s.len() - i,
{
    if i < 0 || i >= s.len() || s[i] == '\n' {
        if i < 0 || i >= s.len() {
            s.len() as int
        } else {
            i
        }
    } else {
        line_feed_from(s, i + 1)
    }
}

/// The end of the line that starts at `i` and runs up to the line feed at
/// `feed`: a carriage return directly before the line feed is no part of it.
pub open spec fn line_end(s: Seq<char>, i: int, feed: int) -> int {
    if feed < s.len() && i < feed && s[feed - 1] == '\r' {
        feed - 1
    } else {
        feed
    }
}

/// The lines of `s` from position `i` on, without their line endings. A
/// line feed at the very end starts no further line.
pub open spec fn lines_from(s: Seq<char>, i: int) -> Seq<Seq<char>>
    decreases s.len() + 1 - i,
    via lines_from_decreases
{
    if i < 0 || i >= s.len() {
        Seq::empty()
    } else {
        let feed = line_feed_from(s, i);
        seq![s.subrange(i, line_end(s, i, feed))] + lines_from(s, feed + 1)
    }
}

pub proof fn lemma_line_feed_bounds(s: Seq<char>, i: int)
    requires
        0 <= i <= s.len(),
    ensures
        i <= line_feed_from(s, i) <= s.len(),
    decreases s.len() - i,
{
    if i < s.len() && s[i] != '\n' {
        lemma_line_feed_bounds(s, i + 1);
    }
}

#[via_fn]
proof fn lines_from_decreases(s: Seq<char>, i: int) {
    if 0 <= i < s.len() {
        lemma_line_feed_bounds(s, i);
    }
}

/// The lines of `s`.
pub open spec fn lines_of(s: Seq<char>) -> Seq<Seq<char>> {
    lines_from(s, 0)
}

/// `pat` occurs somewhere in `line`.
pub open spec fn line_contains(line: Seq<char>, pat: Seq<char>) -> bool {
    find_from(line, pat, 0).is_some()
}

/// The index of the first line at or after `i` in which `pat` occurs.
pub open spec fn first_line_with(lines: Seq<Seq<char>>, pat: Seq<char>, i: int) -> Option<int>
    decreases lines.len() - i,
{
    if i < 0 || i >= lines.len() {
        None
    } else if line_contains(lines[i], pat) {
        Some(i)
    } else {
        first_line_with(lines, pat, i + 1)
    }
}

/// The first `n` of `lines`, joined by line feeds.
pub open spec fn join_lines(lines: Seq<Seq<char>>, n: int) -> Seq<char>
    decreases n,
{
    if n <= 0 || n > lines.len() {
        Seq::empty()
    } else if n == 1 {
        lines[0]
    } else {
        join_lines(lines, n - 1) + "\n"@ + lines[n - 1]
    }
}

pub open spec fn multiuse_marker() -> Seq<char> {
    "BEGIN \"MultiUse\""@
}

pub open spec fn baking_marker() -> Seq<char> {
    "BEGIN \"Baking\""@
}

/// The lines of the rule file with the harvesting section put in: the lines
/// up to the `MultiUse` marker, the section, the lines from the `Baking`
/// marker on. What stood between the two markers is gone.
pub open spec fn with_harvesting(
    lines: Seq<Seq<char>>,
    multiuse: int,
    baking: int,
    rules: Seq<Seq<char>>,
) -> Seq<Seq<char>> {
    lines.take(multiuse + 1) + seq!["BEGIN \"Harvesting\""@] + rules + seq!["END"@] + lines.skip(
        baking,
    )
}

/// What `insert_harvesting_rules` makes of a rule file and the rules.
pub open spec fn insert_rules_spec(content: Seq<char>, rules: Seq<char>) -> Result<
    Seq<char>,
    DemonaxError,
> {
    let lines = lines_of(content);
    match first_line_with(lines, multiuse_marker(), 0) {
        None => Err(DemonaxError::MissingMultiUse),
        Some(multiuse) => match first_line_with(lines, baking_marker(), 0) {
            None => Err(DemonaxError::MissingBaking),
            Some(baking) => if baking <= multiuse {
                Err(DemonaxError::BakingBeforeMultiUse)
            } else {
                let all = with_harvesting(lines, multiuse, baking, lines_of(rules));
                Ok(join_lines(all, all.len() as int))
            },
        },
    }
}

/// The texts of the spans `spans` of `s`.
pub open spec fn span_texts(s: Seq<char>, spans: Seq<(usize, usize)>) -> Seq<Seq<char>> {
    Seq::new(spans.len(), |k: int| s.subrange(spans[k].0 as int, spans[k].1 as int))
}

pub open spec fn spans_within(spans: Seq<(usize, usize)>, len: nat) -> bool {
    forall|k: int| 0 <= k < spans.len() ==> (#[trigger] spans[k]).0 <= spans[k].1 <= len
}

/// The lines of `s`, as spans of `s`.
fn line_spans(s: &[char]) -> (spans: Vec<(usize, usize)>)
    ensures
        span_texts(s@, spans@) == lines_of(s@),
        spans_within(spans@, s@.len()),
{
    let n: usize = s.len();
    let mut spans: Vec<(usize, usize)> = Vec::new();
    let mut pos: usize = 0;
    assert(span_texts(s@, spans@) + lines_from(s@, 0) =~= lines_of(s@));
    while pos < n
        invariant
            pos <= n,
            n == s@.len(),
            spans_within(spans@, s@.len()),
            lines_of(s@) == span_texts(s@, spans@) + lines_from(s@, pos as int),
        decreases n - pos,
    {
        let mut feed: usize = pos;
        while feed < n && s[feed] != '\n'
            invariant
                pos <= feed <= n,
                n == s@.len(),
                line_feed_from(s@, pos as int) == line_feed_from(s@, feed as int),
            decreases n - feed,
        {
            feed += 1;
        }
        let end: usize = if feed < n && pos < feed && s[feed - 1] == '\r' {
            feed - 1
        } else {
            feed
        };
        let ghost before = span_texts(s@, spans@);
        let ghost line = s@.subrange(pos as int, end as int);
        spans.push((pos, end));
        proof {
            assert(span_texts(s@, spans@) =~= before.push(line));
            assert(before + (seq![line] + lines_from(s@, feed + 1)) =~= before.push(line)
                + lines_from(s@, feed + 1));
        }
        pos = if feed < n {
            feed + 1
        } else {
            n
        };
    }
    assert(span_texts(s@, spans@) + Seq::<Seq<char>>::empty() =~= span_texts(s@, spans@));
    spans
}

/// The index of the first span whose text holds `pat`.
fn first_span_with(s: &[char], spans: &Vec<(usize, usize)>, pat: &[char]) -> (r: Option<usize>)
    requires
        spans_within(spans@, s@.len()),
    ensures
        match r {
            Some(k) => first_line_with(span_texts(s@, spans@), pat@, 0) == Some(k as int) && k
                < spans@.len(),
            None => first_line_with(span_texts(s@, spans@), pat@, 0).is_none(),
        },
{
    let ghost lines = span_texts(s@, spans@);
    let mut k: usize = 0;
    while k < spans.len()
        invariant
            k <= spans@.len(),
            lines == span_texts(s@, spans@),
            spans_within(spans@, s@.len()),
            first_line_with(lines, pat@, 0) == first_line_with(lines, pat@, k as int),
        decreases spans@.len() - k,
    {
        let (from, to) = spans[k];
        assert(spans@[k as int].0 <= spans@[k as int].1 <= s@.len());
        let line = slice_subrange(s, from, to);
        assert(line@ == lines[k as int]);
        if find_pattern(line, pat, 0).is_some() {
            return Some(k);
        }
        k += 1;
    }
    None
}

/// The join of the first `n` lines depends on those lines alone.
pub proof fn lemma_join_prefix(a: Seq<Seq<char>>, b: Seq<Seq<char>>, n: int)
    requires
        0 <= n <= a.len(),
        n <= b.len(),
        a.take(n) == b.take(n),
    ensures
        join_lines(a, n) == join_lines(b, n),
    decreases n,
{
    if n > 0 {
        assert(a[n - 1] == a.take(n)[n - 1]);
        assert(b[n - 1] == b.take(n)[n - 1]);
        if n > 1 {
            assert(a.take(n - 1) =~= a.take(n).take(n - 1));
            assert(b.take(n - 1) =~= b.take(n).take(n - 1));
            lemma_join_prefix(a, b, n - 1);
        }
    }
}

/// Appends `line` to `out` as a line of its own, `lines` being the lines
/// that `out` holds so far.
fn write_line(out: &mut String, line: &str, first: bool, Ghost(lines): Ghost<Seq<Seq<char>>>)
    requires
        first == (lines.len() == 0),
        old(out)@ == join_lines(lines, lines.len() as int),
    ensures
        final(out)@ == join_lines(lines.push(line@), lines.len() as int + 1),
{
    if !first {
        out.append("\n");
    }
    out.append(line);
    proof {
        let all = lines.push(line@);
        if !first {
            assert(all.take(lines.len() as int) =~= lines.take(lines.len() as int));
            lemma_join_prefix(all, lines, lines.len() as int);
        }
        assert(out@ =~= join_lines(all, lines.len() as int + 1));
    }
}

/// Appends the texts of the spans `from..to` of `spans` to `out`, each as a
/// line of its own, `lines` being the lines that `out` holds so far.
fn write_spans(
    out: &mut String,
    text: &str,
    spans: &Vec<(usize, usize)>,
    from: usize,
    to: usize,
    first: bool,
    Ghost(lines): Ghost<Seq<Seq<char>>>,
)
    requires
        from <= to <= spans@.len(),
        spans_within(spans@, text@.len()),
        first == (lines.len() == 0),
        old(out)@ == join_lines(lines, lines.len() as int),
    ensures
        final(out)@ == join_lines(
            lines + span_texts(text@, spans@).subrange(from as int, to as int),
            lines.len() + (to - from),
        ),
{
    let ghost texts = span_texts(text@, spans@);
    let ghost mut done = lines;
    let mut is_first: bool = first;
    let mut k: usize = from;
    assert(done =~= lines + texts.subrange(from as int, from as int));
    while k < to
        invariant
            from <= k <= to <= spans@.len(),
            spans_within(spans@, text@.len()),
            texts == span_texts(text@, spans@),
            done == lines + texts.subrange(from as int, k as int),
            is_first == (done.len() == 0),
            out@ == join_lines(done, done.len() as int),
        decreases to - k,
    {
        let (a, b) = spans[k];
        assert(spans@[k as int].0 <= spans@[k as int].1 <= text@.len());
        let line = text.substring_char(a, b);
        assert(line@ == texts[k as int]);
        write_line(out, line, is_first, Ghost(done));
        proof {
            done = done.push(line@);
            assert(done =~= lines + texts.subrange(from as int, k + 1));
        }
        is_first = false;
        k += 1;
    }
}

pub open spec fn text_result(r: Result<String, DemonaxError>) -> Result<Seq<char>, DemonaxError> {
    match r {
        Ok(s) => Ok(s@),
        Err(e) => Err(e),
    }
}

/// Puts the harvesting rules into the rule file: a section
/// `BEGIN "Harvesting"` .. `END`, directly below the line that holds
/// `BEGIN "MultiUse"`. The lines down to the line that holds
/// `BEGIN "Baking"` are replaced by it.
pub fn insert_harvesting_rules(moveuse_content: &str, rules: &str) -> (r: Result<
    String,
    DemonaxError,
>)
    ensures
        text_result(r) == insert_rules_spec(moveuse_content@, rules@),
{
    let chars = to_chars(moveuse_content);
    let spans = line_spans(chars.as_slice());
    let multiuse_key = to_chars("BEGIN \"MultiUse\"");
    let baking_key = to_chars("BEGIN \"Baking\"");
    let multiuse: usize = match first_span_with(chars.as_slice(), &spans, multiuse_key.as_slice()) {
        Some(k) => k,
        None => {
            return Err(DemonaxError::MissingMultiUse);
        },
    };
    let baking: usize = match first_span_with(chars.as_slice(), &spans, baking_key.as_slice()) {
        Some(k) => k,
        None => {
            return Err(DemonaxError::MissingBaking);
        },
    };
    if baking <= multiuse {
        return Err(DemonaxError::BakingBeforeMultiUse);
    }
    let rule_chars = to_chars(rules);
    let rule_spans = line_spans(rule_chars.as_slice());
    let ghost lines = lines_of(moveuse_content@);
    let ghost rule_lines = lines_of(rules@);
    let ghost l0 = Seq::<Seq<char>>::empty();
    let ghost l1 = l0 + lines.subrange(0, multiuse + 1);
    let ghost l2 = l1.push("BEGIN \"Harvesting\""@);
    let ghost l3 = l2 + rule_lines.subrange(0, rule_lines.len() as int);
    let ghost l4 = l3.push("END"@);
    let ghost l5 = l4 + lines.subrange(baking as int, lines.len() as int);
    let mut out = String::new();
    assert(out@ =~= join_lines(l0, 0));
    write_spans(&mut out, moveuse_content, &spans, 0, multiuse + 1, true, Ghost(l0));
    write_line(&mut out, "BEGIN \"Harvesting\"", false, Ghost(l1));
    write_spans(&mut out, rules, &rule_spans, 0, rule_spans.len(), false, Ghost(l2));
    write_line(&mut out, "END", false, Ghost(l3));
    write_spans(&mut out, moveuse_content, &spans, baking, spans.len(), false, Ghost(l4));
    assert(l5 =~= with_harvesting(lines, multiuse as int, baking as int, rule_lines));
    Ok(out)
}

} // verus!
