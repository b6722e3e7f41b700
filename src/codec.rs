use vstd::prelude::*;
use crate::clock::Stamp;
use crate::hours::{duration_of_chars, first_index, hours_text, push_hours};
use crate::item::{count_interruptions, count_sessions, history_ok, run_scan, Item, StateEvent};
use crate::status::{tag_text, RunStatus, ScheduleDay};
use crate::text::{
    chars_of, has_prefix, is_blank, is_text, nat_text, push_chars, push_nat, push_text, slice_of, starts_with,
    string_of, trim, trim_end, trim_start, trimmed,
};

verus! {

/// Section of a daily file.
#[derive(Debug, Clone, Copy, PartialEq, Eq, Structural)]
pub enum Section {
    Active,
    Done,
    Archived,
}

/// Why a task record could not be read.
#[derive(Debug, Clone, Copy, PartialEq, Eq, Structural)]
pub enum ParseError {
    /// The task line has no `]` closing its status tag.
    MissingBracket,
    /// The status tag names no status.
    UnknownStatus,
    /// The title after the tag is empty.
    EmptyTitle,
}

/// The text without leading dashes.
pub open spec fn strip_dashes(s: Seq<char>) -> Seq<char>
    decreases s.len(),
{
    if s.len() > 0 && s[0] == '-' {
        strip_dashes(s.drop_first())
    } else {
        s
    }
}

/// What a task line `- [STATUS] Title` says: its status and title.
pub open spec fn task_line_value(l: Seq<char>) -> Result<(RunStatus, Seq<char>), ParseError> {
    let a = trim(strip_dashes(l));
    match first_index(a, ']') {
        None => Err(ParseError::MissingBracket),
        Some(k) => {
            let tag = if k >= 1 { a.subrange(1, k) } else { Seq::<char>::empty() };
            match RunStatus::spec_from_tag(tag) {
                None => Err(ParseError::UnknownStatus),
                Some(st) => {
                    let title = trim(a.subrange(k + 1, a.len() as int));
                    if title.len() == 0 {
                        Err(ParseError::EmptyTitle)
                    } else {
                        Ok((st, title))
                    }
                },
            }
        },
    }
}

fn strip_dashes_exec(s: &[char]) -> (r: Vec<char>)
    ensures
        r@ == strip_dashes(s@),
{
    let mut k: usize = 0;
    assert(s@.subrange(0, s@.len() as int) == s@);
    while k < s.len() && s[k] == '-'
        invariant
            k <= s@.len(),
            strip_dashes(s@.subrange(k as int, s@.len() as int)) == strip_dashes(s@),
        decreases s@.len() - k,
    {
        assert(s@.subrange(k as int, s@.len() as int).drop_first() == s@.subrange(k + 1, s@.len() as int));
        k = k + 1;
    }
    proof {
        if k == 0 {
            assert(s@.subrange(0, s@.len() as int) == s@);
        }
    }
    slice_of(s, k, s.len())
}

fn task_line_of_chars(l: &[char]) -> (r: Result<(RunStatus, Vec<char>), ParseError>)
    ensures
        match task_line_value(l@) {
            Ok(v) => r is Ok && r->Ok_0.0 == v.0 && r->Ok_0.1@ == v.1,
            Err(e) => r == Err::<(RunStatus, Vec<char>), ParseError>(e),
        },
{
    let d = strip_dashes_exec(l);
    let a = trimmed(&d);
    let mut k: usize = 0;
    while k < a.len() && a[k] != ']'
        invariant
            k <= a@.len(),
            forall|j: int| 0 <= j < k ==> a@[j] != ']',
        decreases a@.len() - k,
    {
        k = k + 1;
    }
    if k == a.len() {
        proof { crate::hours::lemma_first_index_none(a@, ']'); }
        return Err(ParseError::MissingBracket);
    }
    proof { crate::hours::lemma_first_index_at(a@, ']', k as int); }
    let tag = if k >= 1 { slice_of(&a, 1, k) } else { Vec::new() };
    let tag_s = string_of(&tag);
    match RunStatus::from_tag(tag_s.as_str()) {
        None => Err(ParseError::UnknownStatus),
        Some(st) => {
            let rest = slice_of(&a, k + 1, a.len());
            let title = trimmed(&rest);
            if title.len() == 0 {
                Err(ParseError::EmptyTitle)
            } else {
                Ok((st, title))
            }
        },
    }
}

/// Parse a task line `- [STATUS] Title` into its status and title.
pub fn parse_task_line(line: &str) -> (r: Result<(RunStatus, String), ParseError>)
    ensures
        match task_line_value(line@) {
            Ok(v) => r is Ok && r->Ok_0.0 == v.0 && r->Ok_0.1@ == v.1,
            Err(e) => r == Err::<(RunStatus, String), ParseError>(e),
        },
{
    let cs = chars_of(line);
    match task_line_of_chars(&cs) {
        Ok((st, title)) => Ok((st, string_of(&title))),
        Err(e) => Err(e),
    }
}

proof fn lemma_tag_letters(st: RunStatus)
    ensures
        tag_text(st).len() > 0,
        forall|i: int| 0 <= i < tag_text(st).len() ==> 'A' <= #[trigger] tag_text(st)[i] <= 'Z',
{
    reveal_strlit("IDLE");
    reveal_strlit("RUNNING");
    reveal_strlit("PAUSED");
    reveal_strlit("DONE");
    reveal_strlit("POSTPONED");
}

proof fn lemma_first_close(tag: Seq<char>, rest: Seq<char>)
    requires
        forall|i: int| 0 <= i < tag.len() ==> 'A' <= #[trigger] tag[i] <= 'Z',
    ensures
        first_index(seq!['['] + tag + seq![']'] + rest, ']') == Some(tag.len() as int + 1),
{
    let s = seq!['['] + tag + seq![']'] + rest;
    assert forall|j: int| 0 <= j < tag.len() + 1 implies s[j] != ']' by {
        if j > 0 {
            assert(s[j] == tag[j - 1]);
        }
    }
    assert(s[tag.len() as int + 1] == ']');
    crate::hours::lemma_first_index_at(s, ']', tag.len() as int + 1);
}

/// Reading a task line written for a status and a title gives them back,
/// when the title is not empty and has no blanks at either end.
pub proof fn lemma_task_line_round_trip(st: RunStatus, title: Seq<char>, d: nat)
    requires
        title.len() > 0,
        !is_blank(title[0]),
        !is_blank(title.last()),
    ensures
        task_line_value(trim(indent(d) + "- ["@ + tag_text(st) + "] "@ + title)) == Ok::<(RunStatus, Seq<char>), ParseError>((st, title)),
{
    reveal_strlit("- [");
    reveal_strlit("] ");
    reveal_strlit("    ");
    lemma_tag_letters(st);
    crate::status::lemma_tag_round_trip(st);
    let tag = tag_text(st);
    let core = seq!['-', ' ', '['] + tag + seq![']', ' '] + title;
    let line = indent(d) + "- ["@ + tag_text(st) + "] "@ + title;
    assert(line == indent(d) + core);
    assert(trim(line) == core) by {
        let k = indent(d).len() as int;
        assert forall|i: int| 0 <= i < k implies crate::text::is_blank(#[trigger] line[i]) by {
            assert(line[i] == ' ');
        }
        assert(line[k] == '-');
        crate::text::lemma_trim_start_is_suffix(line, k);
        assert(line.subrange(k, line.len() as int) == core);
        assert(core.last() == title.last());
        assert(trim_end(core) == core);
    }
    let after = seq![' ', '['] + tag + seq![']', ' '] + title;
    assert(core.drop_first() == after);
    assert(strip_dashes(after) == after);
    assert(strip_dashes(core) == after);
    let a = seq!['['] + tag + seq![']', ' '] + title;
    assert(trim(after) == a) by {
        assert(after.drop_first() == a);
        assert(trim_start(a) == a);
        assert(trim_start(after) == a);
        assert(a.last() == title.last());
        assert(trim_end(a) == a);
    }
    assert(a == seq!['['] + tag + seq![']'] + (seq![' '] + title));
    lemma_first_close(tag, seq![' '] + title);
    let k = tag.len() as int + 1;
    assert(a.subrange(1, k) == tag);
    assert(RunStatus::spec_from_tag(tag) == Some(st));
    let rest = a.subrange(k + 1, a.len() as int);
    assert(rest == seq![' '] + title);
    assert(trim(rest) == title) by {
        assert(rest.drop_first() == title);
        assert(trim_start(title) == title);
        assert(trim_start(rest) == title);
        assert(trim_end(title) == title);
    }
}

/// An estimate or elapsed line written for a duration reads back as that
/// duration, when it is a whole number of hundredths of an hour (36 s) with
/// at most twelve digits of whole hours.
pub proof fn lemma_duration_field_round_trip(d: nat, secs: int)
    requires
        secs % 36 == 0,
        -3600000000000000 < secs < 3600000000000000,
    ensures
        ({
            let t = trim(indent(d) + "  est: "@ + hours_field(secs));
            &&& starts_with(t, "est:"@)
            &&& crate::hours::duration_value(trim(t.subrange(4, t.len() as int))) == Some(secs)
        }),
        ({
            let t = trim(indent(d) + "  elapsed: "@ + hours_field(secs));
            &&& starts_with(t, "elapsed:"@)
            &&& crate::hours::duration_value(trim(t.subrange(8, t.len() as int))) == Some(secs)
        }),
{
    reveal_strlit("  est: ");
    reveal_strlit("est:");
    reveal_strlit("  elapsed: ");
    reveal_strlit("elapsed:");
    reveal_strlit("    ");
    crate::hours::lemma_hours_round_trip(secs);
    let hf = hours_field(secs);
    let e1 = seq!['e', 's', 't', ':'];
    let e2 = seq!['e', 'l', 'a', 'p', 's', 'e', 'd', ':'];
    lemma_field_line(d, e1, hf);
    lemma_field_line(d, e2, hf);
    assert("  est: "@ == seq![' ', ' '] + e1 + seq![' ']);
    assert("  elapsed: "@ == seq![' ', ' '] + e2 + seq![' ']);
    assert("est:"@ == e1);
    assert("elapsed:"@ == e2);
    let t1 = e1 + seq![' '] + hf;
    let t2 = e2 + seq![' '] + hf;
    assert(indent(d) + "  est: "@ + hf == indent(d) + (seq![' ', ' '] + e1 + seq![' ']) + hf);
    assert(indent(d) + "  elapsed: "@ + hf == indent(d) + (seq![' ', ' '] + e2 + seq![' ']) + hf);
    assert(t1.subrange(0, 4) == e1);
    assert(t2.subrange(0, 8) == e2);
}

proof fn lemma_field_line(d: nat, name: Seq<char>, v: Seq<char>)
    requires
        name.len() > 0,
        !is_blank(name[0]),
        v.len() > 0,
        !is_blank(v[0]),
        !is_blank(v.last()),
    ensures
        trim(indent(d) + (seq![' ', ' '] + name + seq![' ']) + v) == name + seq![' '] + v,
        trim((name + seq![' '] + v).subrange(name.len() as int, (name + seq![' '] + v).len() as int)) == v,
{
    reveal_strlit("    ");
    let line = indent(d) + (seq![' ', ' '] + name + seq![' ']) + v;
    let core = name + seq![' '] + v;
    let k = indent(d).len() as int + 2;
    assert forall|i: int| 0 <= i < k implies crate::text::is_blank(#[trigger] line[i]) by {
        assert(line[i] == ' ');
    }
    assert(line[k] == name[0]);
    crate::text::lemma_trim_start_is_suffix(line, k);
    assert(line.subrange(k, line.len() as int) == core);
    assert(core.last() == v.last());
    assert(trim_end(core) == core);
    let rest = core.subrange(name.len() as int, core.len() as int);
    assert(rest == seq![' '] + v);
    assert(rest.drop_first() == v);
    assert(trim_start(v) == v);
    assert(trim_start(rest) == v);
    assert(trim_end(v) == v);
}

/// Indentation of a record at depth `d` (a subtask sits one level deeper).
pub open spec fn indent(d: nat) -> Seq<char> {
    if d == 0 {
        Seq::<char>::empty()
    } else {
        "    "@
    }
}

fn push_indent(out: &mut String, d: usize)
    ensures
        final(out)@ == old(out)@ + indent(d as nat),
{
    if d != 0 {
        push_text(out, "    ");
    } else {
        assert(old(out)@ + Seq::<char>::empty() == old(out)@);
    }
}

/// The pieces of a text between separators (one more piece than separators).
pub open spec fn split_on(s: Seq<char>, sep: char) -> Seq<Seq<char>>
    decreases s.len(),
{
    if s.len() == 0 {
        seq![Seq::<char>::empty()]
    } else {
        let prev = split_on(s.drop_last(), sep);
        if s.last() == sep {
            prev.push(Seq::<char>::empty())
        } else {
            prev.update(prev.len() - 1, prev.last().push(s.last()))
        }
    }
}

/// The lines of a text, split at line feeds; a final line feed ends the last line.
pub open spec fn lines_of(s: Seq<char>) -> Seq<Seq<char>> {
    if s.len() == 0 {
        Seq::empty()
    } else if s.last() == '\n' {
        split_on(s, '\n').drop_last()
    } else {
        split_on(s, '\n')
    }
}

proof fn lemma_split_on_nonempty(s: Seq<char>, sep: char)
    ensures
        split_on(s, sep).len() >= 1,
    decreases s.len(),
{
    if s.len() > 0 {
        lemma_split_on_nonempty(s.drop_last(), sep);
    }
}

/// Split a text at every separator.
pub fn split_pieces(s: &[char], sep: char) -> (r: Vec<Vec<char>>)
    ensures
        r@.len() == split_on(s@, sep).len(),
        forall|i: int| 0 <= i < r@.len() ==> (#[trigger] r@[i])@ == split_on(s@, sep)[i],
{
    let mut done: Vec<Vec<char>> = Vec::new();
    let mut cur: Vec<char> = Vec::new();
    let mut i: usize = 0;
    while i < s.len()
        invariant
            i <= s@.len(),
            done@.len() + 1 == split_on(s@.subrange(0, i as int), sep).len(),
            forall|k: int| 0 <= k < done@.len() ==> (#[trigger] done@[k])@ == split_on(s@.subrange(0, i as int), sep)[k],
            cur@ == split_on(s@.subrange(0, i as int), sep).last(),
        decreases s@.len() - i,
    {
        let ghost pre = s@.subrange(0, i as int);
        let ghost nxt = s@.subrange(0, i + 1);
        proof {
            assert(nxt.drop_last() == pre);
            assert(nxt.last() == s@[i as int]);
            lemma_split_on_nonempty(pre, sep);
        }
        if s[i] == sep {
            let mut line: Vec<char> = Vec::new();
            std::mem::swap(&mut line, &mut cur);
            done.push(line);
        } else {
            cur.push(s[i]);
        }
        i = i + 1;
    }
    proof {
        assert(s@.subrange(0, s@.len() as int) == s@);
        lemma_split_on_nonempty(s@, sep);
    }
    done.push(cur);
    done
}

/// Split a text into its lines.
pub fn split_lines(s: &[char]) -> (r: Vec<Vec<char>>)
    ensures
        r@.len() == lines_of(s@).len(),
        forall|i: int| 0 <= i < r@.len() ==> (#[trigger] r@[i])@ == lines_of(s@)[i],
{
    let mut v = split_pieces(s, '\n');
    if s.len() == 0 || s[s.len() - 1] == '\n' {
        v.pop();
    }
    v
}

/// The tags in a comma-separated list, trimmed, empty ones left out.
pub open spec fn tags_value(s: Seq<char>) -> Seq<Seq<char>> {
    kept_tags(split_on(s, ','), split_on(s, ',').len())
}

/// The non-empty trimmed pieces among the first `n`.
pub open spec fn kept_tags(ps: Seq<Seq<char>>, n: nat) -> Seq<Seq<char>>
    decreases n,
{
    if n == 0 {
        Seq::empty()
    } else {
        let prev = kept_tags(ps, (n - 1) as nat);
        if trim(ps[n - 1]).len() > 0 {
            prev.push(trim(ps[n - 1]))
        } else {
            prev
        }
    }
}

fn tags_of_chars(s: &[char]) -> (r: Vec<String>)
    ensures
        views(r@) == tags_value(s@),
{
    let ps = split_pieces(s, ',');
    let ghost want = split_on(s@, ',');
    let mut out: Vec<String> = Vec::new();
    let mut i: usize = 0;
    while i < ps.len()
        invariant
            ps@.len() == want.len(),
            forall|k: int| 0 <= k < ps@.len() ==> (#[trigger] ps@[k])@ == want[k],
            i <= ps@.len(),
            views(out@) == kept_tags(want, i as nat),
        decreases ps@.len() - i,
    {
        let t = trimmed(&ps[i]);
        let ghost before = out@;
        if t.len() > 0 {
            let ts = string_of(&t);
            out.push(ts);
            proof {
                assert(views(out@) =~= views(before).push(ts@));
            }
        }
        proof {
            assert(views(out@) =~= kept_tags(want, (i + 1) as nat)) by {
                assert(ps@[i as int]@ == want[i as int]);
            }
        }
        i = i + 1;
    }
    out
}

proof fn lemma_split_on_no_sep(y: Seq<char>, sep: char)
    requires
        forall|i: int| 0 <= i < y.len() ==> y[i] != sep,
    ensures
        split_on(y, sep) == seq![y],
    decreases y.len(),
{
    if y.len() > 0 {
        let t = y.drop_last();
        assert forall|i: int| 0 <= i < t.len() implies t[i] != sep by {
            assert(t[i] == y[i]);
        }
        lemma_split_on_no_sep(t, sep);
        assert(t.push(y.last()) == y);
        assert(y.last() != sep);
        assert(seq![t].update(0, t.push(y.last())) =~= seq![y]);
    } else {
        assert(y =~= Seq::<char>::empty());
    }
}

proof fn lemma_split_on_append(x: Seq<char>, y: Seq<char>, sep: char)
    requires
        forall|i: int| 0 <= i < y.len() ==> y[i] != sep,
    ensures
        split_on(x + seq![sep] + y, sep) == split_on(x, sep).push(y),
    decreases y.len(),
{
    lemma_split_on_nonempty(x, sep);
    if y.len() == 0 {
        assert(y =~= Seq::<char>::empty());
        assert(x + seq![sep] + y =~= x + seq![sep]);
        assert((x + seq![sep]).drop_last() =~= x);
        assert((x + seq![sep]).last() == sep);
    } else {
        let t = y.drop_last();
        assert forall|i: int| 0 <= i < t.len() implies t[i] != sep by {
            assert(t[i] == y[i]);
        }
        lemma_split_on_append(x, t, sep);
        let s = x + seq![sep] + y;
        assert(s.drop_last() == x + seq![sep] + t);
        assert(s.last() == y.last());
        assert(t.push(y.last()) == y);
        assert(y.last() != sep);
        let pv = split_on(x, sep).push(t);
        assert(pv.update(pv.len() - 1, pv.last().push(y.last())) =~= split_on(x, sep).push(y));
    }
}

proof fn lemma_kept_prefix(ps: Seq<Seq<char>>, p: Seq<char>, n: nat)
    requires
        n <= ps.len(),
    ensures
        kept_tags(ps.push(p), n) == kept_tags(ps, n),
    decreases n,
{
    if n > 0 {
        lemma_kept_prefix(ps, p, (n - 1) as nat);
        assert(ps.push(p)[n - 1] == ps[n - 1]);
    }
}

/// A tag that is written and read back unchanged: not empty, no comma, no
/// blank at either end.
pub open spec fn plain_tag(t: Seq<char>) -> bool {
    &&& t.len() > 0
    &&& !is_blank(t[0])
    &&& !is_blank(t.last())
    &&& forall|i: int| 0 <= i < t.len() ==> t[i] != ','
}

/// Joining tags with `, ` and reading the list back gives the same tags,
/// when each is a plain tag.
pub proof fn lemma_tags_round_trip(tags: Seq<Seq<char>>)
    requires
        forall|i: int| 0 <= i < tags.len() ==> plain_tag(#[trigger] tags[i]),
    ensures
        tags_value(joined(tags)) == tags,
        tags.len() > 0 ==> split_on(joined(tags), ',').len() == tags.len(),
    decreases tags.len(),
{
    reveal_strlit(", ");
    reveal_with_fuel(kept_tags, 2);
    if tags.len() == 0 {
        assert(joined(tags) == Seq::<char>::empty());
        assert(split_on(Seq::<char>::empty(), ',') == seq![Seq::<char>::empty()]);
        assert(trim_start(Seq::<char>::empty()) == Seq::<char>::empty());
        assert(trim_end(Seq::<char>::empty()) == Seq::<char>::empty());
        assert(seq![Seq::<char>::empty()][0] == Seq::<char>::empty());
        assert(kept_tags(seq![Seq::<char>::empty()], 1) == Seq::<Seq<char>>::empty());
        assert(tags =~= Seq::<Seq<char>>::empty());
    } else if tags.len() == 1 {
        let t = tags[0];
        assert(plain_tag(t));
        lemma_split_on_no_sep(t, ',');
        assert(trim_start(t) == t);
        assert(trim_end(t) == t);
        assert(seq![t][0] == t);
        assert(kept_tags(seq![t], 1) =~= Seq::<Seq<char>>::empty().push(t));
        assert(tags =~= seq![t]);
    } else {
        let prev = tags.drop_last();
        let last = tags.last();
        assert(plain_tag(last));
        assert forall|i: int| 0 <= i < prev.len() implies plain_tag(#[trigger] prev[i]) by {
            assert(prev[i] == tags[i]);
        }
        lemma_tags_round_trip(prev);
        let y = seq![' '] + last;
        assert forall|i: int| 0 <= i < y.len() implies y[i] != ',' by {
            if i > 0 {
                assert(y[i] == last[i - 1]);
            }
        }
        assert(joined(tags) == joined(prev) + seq![','] + y);
        lemma_split_on_append(joined(prev), y, ',');
        let ps = split_on(joined(prev), ',');
        assert(split_on(joined(tags), ',') == ps.push(y));
        lemma_kept_prefix(ps, y, ps.len());
        assert(y.drop_first() == last);
        assert(trim_start(last) == last);
        assert(trim_start(y) == last);
        assert(trim_end(last) == last);
        assert(trim(y) == last);
        assert(kept_tags(ps.push(y), ps.len() + 1) == kept_tags(ps, ps.len()).push(last));
        assert(tags == prev.push(last));
    }
}

/// Parse tags from a comma-separated list like `tag1, tag2`.
pub fn parse_tags(s: &str) -> (r: Vec<String>)
    ensures
        views(r@) == tags_value(s@),
{
    let cs = chars_of(s);
    tags_of_chars(&cs)
}

/// Whether a text holds only blanks and line feeds.
pub open spec fn is_blank_text(s: Seq<char>) -> bool {
    forall|i: int| 0 <= i < s.len() ==> is_blank(#[trigger] s[i]) || s[i] == '\n'
}

/// Text of a number of seconds as hours with the unit, e.g. `1.30h`.
pub open spec fn hours_field(secs: int) -> Seq<char> {
    hours_text(secs) + "h"@
}

/// Whole minutes of a span, in seconds (truncated toward zero).
pub open spec fn whole_minutes(secs: int) -> int {
    if secs < 0 {
        -(((-secs) / 60) * 60)
    } else {
        (secs / 60) * 60
    }
}

/// Text of an event in a history list.
pub open spec fn event_text(e: StateEvent) -> Seq<char> {
    match e.from_status {
        Some(f) => tag_text(f) + " -> "@ + tag_text(e.to_status),
        None => tag_text(e.to_status),
    }
}

/// The tags joined by a comma and a space.
pub open spec fn joined(tags: Seq<Seq<char>>) -> Seq<char>
    decreases tags.len(),
{
    if tags.len() == 0 {
        Seq::empty()
    } else if tags.len() == 1 {
        tags[0]
    } else {
        joined(tags.drop_last()) + ", "@ + tags.last()
    }
}

/// The notes block lines, each indented under the field.
pub open spec fn note_lines_text(ls: Seq<Seq<char>>, d: nat) -> Seq<char>
    decreases ls.len(),
{
    if ls.len() == 0 {
        Seq::empty()
    } else {
        note_lines_text(ls.drop_last(), d) + indent(d) + "    "@ + ls.last() + "\n"@
    }
}

/// The history block lines.
pub open spec fn history_lines_text(h: Seq<StateEvent>, d: nat) -> Seq<char>
    decreases h.len(),
{
    if h.len() == 0 {
        Seq::empty()
    } else {
        history_lines_text(h.drop_last(), d) + indent(d) + "    - "@ + h.last().timestamp.spec_text() + ": "@
            + event_text(h.last()) + "\n"@
    }
}

/// The views of a list of strings.
pub open spec fn views(v: Seq<String>) -> Seq<Seq<char>> {
    v.map_values(|s: String| s@)
}

/// Running time of an item as `running_time` computes it.
pub open spec fn spec_running_time(it: Item, now: Stamp) -> int {
    let sc = run_scan(it.state_history@, it.state_history@.len());
    match sc.1 {
        Some(st) => sc.0 + it.spec_end(now) - st,
        None => sc.0,
    }
}

/// The calendar-time line of the analytics block, when completed.
pub open spec fn calendar_text(it: Item, d: nat) -> Seq<char> {
    match it.completed_at {
        Some(c) => indent(d) + "    Calendar Time: "@ + hours_field(whole_minutes(c.secs - it.created_at.secs)) + "\n"@,
        None => Seq::<char>::empty(),
    }
}

/// The active-time line of the analytics block.
pub open spec fn active_time_text(it: Item, d: nat, now: Stamp) -> Seq<char> {
    indent(d) + "    Active Time: "@ + hours_field(whole_minutes(spec_running_time(it, now))) + "\n"@
}

/// The counting lines of the analytics block.
pub open spec fn counts_text(it: Item, d: nat) -> Seq<char> {
    let h = it.state_history@;
    indent(d) + "    Interruptions: "@ + nat_text(count_interruptions(h, h.len())) + "\n"@
        + indent(d) + "    Sessions: "@ + nat_text(count_sessions(h, h.len())) + "\n"@
}

/// The analytics block of a completed record.
pub open spec fn analytics_text(it: Item, d: nat, now: Stamp) -> Seq<char> {
    indent(d) + "  Analytics:\n"@ + calendar_text(it, d) + active_time_text(it, d, now) + counts_text(it, d)
}

/// The task line of a record.
pub open spec fn task_line_text(it: Item, d: nat) -> Seq<char> {
    indent(d) + "- ["@ + tag_text(it.status) + "] "@ + it.title@ + "\n"@
}

/// The estimate and elapsed fields.
pub open spec fn times_text(it: Item, d: nat) -> Seq<char> {
    indent(d) + "  est: "@ + hours_field(it.track.estimate as int) + "\n"@
        + indent(d) + "  elapsed: "@ + hours_field(it.track.elapsed as int) + "\n"@
}

/// The completion field, when completed.
pub open spec fn completed_text(it: Item, d: nat) -> Seq<char> {
    match it.completed_at {
        Some(c) => indent(d) + "  completed: "@ + c.spec_text() + "\n"@,
        None => Seq::<char>::empty(),
    }
}

/// The tags field, when there are tags.
pub open spec fn tags_text(it: Item, d: nat) -> Seq<char> {
    if it.tags@.len() > 0 {
        indent(d) + "  tags: "@ + joined(views(it.tags@)) + "\n"@
    } else {
        Seq::<char>::empty()
    }
}

/// The notes block, when the notes hold more than blanks.
pub open spec fn notes_text(it: Item, d: nat) -> Seq<char> {
    if !is_blank_text(it.notes@) {
        indent(d) + "  notes: |\n"@ + note_lines_text(lines_of(it.notes@), d)
    } else {
        Seq::<char>::empty()
    }
}

/// The fields of a record from the estimate to the notes.
pub open spec fn fields_text(it: Item, d: nat) -> Seq<char> {
    times_text(it, d) + completed_text(it, d) + tags_text(it, d) + notes_text(it, d)
}

/// The creation time and history of a record.
pub open spec fn tail_text(it: Item, d: nat) -> Seq<char> {
    indent(d) + "  created: "@ + it.created_at.spec_text() + "\n"@
        + (if it.state_history@.len() > 0 {
            indent(d) + "  history:\n"@ + history_lines_text(it.state_history@, d)
        } else {
            Seq::<char>::empty()
        })
}

/// One record without its subtasks: the task line and its fields.
#[verifier::opaque]
pub open spec fn record_text(it: Item, d: nat, analytics: bool, now: Stamp) -> Seq<char> {
    task_line_text(it, d) + fields_text(it, d)
        + (if analytics && it.status == RunStatus::Done {
            analytics_text(it, d, now)
        } else {
            Seq::<char>::empty()
        })
        + tail_text(it, d)
}

/// Whether a subtask is written under its parent.
pub open spec fn subtask_written(st: Item, analytics: bool) -> bool {
    analytics || st.status.spec_is_active() || st.status == RunStatus::Done
}

/// The records of the first `n` subtasks that are written.
pub open spec fn subtasks_text(subs: Seq<Item>, n: nat, analytics: bool, now: Stamp) -> Seq<char>
    decreases n,
{
    if n == 0 {
        Seq::empty()
    } else {
        subtasks_text(subs, (n - 1) as nat, analytics, now) + if subtask_written(subs[n - 1], analytics) {
            record_text(subs[n - 1], 1, analytics, now)
        } else {
            Seq::<char>::empty()
        }
    }
}

/// A top-level record with its subtasks.
#[verifier::opaque]
pub open spec fn item_text(it: Item, analytics: bool, now: Stamp) -> Seq<char> {
    record_text(it, 0, analytics, now) + if it.subtasks@.len() > 0 {
        "  subtasks:\n"@ + subtasks_text(it.subtasks@, it.subtasks@.len(), analytics, now)
    } else {
        Seq::<char>::empty()
    }
}

/// The records of the first `n` items, each followed by a blank line; with
/// `only_active`, items that are not active are left out.
pub open spec fn items_text(items: Seq<Item>, n: nat, only_active: bool, analytics: bool, now: Stamp) -> Seq<char>
    decreases n,
{
    if n == 0 {
        Seq::empty()
    } else {
        items_text(items, (n - 1) as nat, only_active, analytics, now) + if !only_active
            || items[n - 1].status.spec_is_active() {
            item_text(items[n - 1], analytics, now) + "\n"@
        } else {
            Seq::<char>::empty()
        }
    }
}

/// The whole daily file.
pub open spec fn daily_text(active: Seq<Item>, done: Seq<Item>, archived: Seq<Item>, date: Stamp, now: Stamp) -> Seq<char> {
    "# "@ + crate::clock::ymd_text(date.secs as int, date.offset as int) + "\n\n"@
        + "## ACTIVE\n\n"@ + items_text(active, active.len(), true, false, now)
        + (if done.len() > 0 {
            "## DONE\n\n"@ + items_text(done, done.len(), false, true, now)
        } else {
            Seq::<char>::empty()
        })
        + (if archived.len() > 0 {
            "## ARCHIVED\n\n"@ + items_text(archived, archived.len(), false, false, now)
        } else {
            Seq::<char>::empty()
        })
}

pub(crate) fn push_hours_field(out: &mut String, secs: i64)
    ensures
        final(out)@ == old(out)@ + hours_field(secs as int),
{
    push_hours(out, secs);
    push_text(out, "h");
}

pub(crate) fn push_event_text(out: &mut String, e: &StateEvent)
    ensures
        final(out)@ == old(out)@ + event_text(*e),
{
    match e.from_status {
        Some(f) => {
            push_text(out, f.to_tag());
            push_text(out, " -> ");
            push_text(out, e.to_status.to_tag());
        },
        None => {
            push_text(out, e.to_status.to_tag());
        },
    }
}

fn push_history(out: &mut String, h: &Vec<StateEvent>, d: usize)
    requires
        history_ok(h@),
    ensures
        final(out)@ == old(out)@ + history_lines_text(h@, d as nat),
{
    let mut i: usize = 0;
    while i < h.len()
        invariant
            history_ok(h@),
            i <= h@.len(),
            out@ == old(out)@ + history_lines_text(h@.subrange(0, i as int), d as nat),
        decreases h@.len() - i,
    {
        let ghost before = out@;
        assert(h@[i as int].timestamp.wf());
        push_indent(out, d);
        push_text(out, "    - ");
        let ts = h[i].timestamp.to_rfc3339();
        push_text(out, ts.as_str());
        push_text(out, ": ");
        push_event_text(out, &h[i]);
        push_text(out, "\n");
        proof {
            let p = h@.subrange(0, i + 1);
            assert(p.drop_last() == h@.subrange(0, i as int));
            assert(p.last() == h@[i as int]);
        }
        i = i + 1;
    }
    assert(h@.subrange(0, h@.len() as int) == h@);
}

pub(crate) fn push_joined(out: &mut String, tags: &Vec<String>)
    ensures
        final(out)@ == old(out)@ + joined(views(tags@)),
{
    let mut i: usize = 0;
    while i < tags.len()
        invariant
            i <= tags@.len(),
            out@ == old(out)@ + joined(views(tags@.subrange(0, i as int))),
        decreases tags@.len() - i,
    {
        proof {
            let p = views(tags@.subrange(0, i + 1));
            assert(p.drop_last() == views(tags@.subrange(0, i as int)));
            assert(p.last() == tags@[i as int]@);
            if i == 0 {
                assert(views(tags@.subrange(0, 0)).len() == 0);
            }
        }
        if i > 0 {
            push_text(out, ", ");
        }
        push_text(out, tags[i].as_str());
        i = i + 1;
    }
    assert(tags@.subrange(0, tags@.len() as int) == tags@);
}

pub(crate) fn blank_text(s: &String) -> (r: bool)
    ensures
        r == is_blank_text(s@),
{
    let cs = chars_of(s.as_str());
    let mut i: usize = 0;
    while i < cs.len()
        invariant
            cs@ == s@,
            i <= cs@.len(),
            forall|k: int| 0 <= k < i ==> is_blank(#[trigger] cs@[k]) || cs@[k] == '\n',
        decreases cs@.len() - i,
    {
        let c = cs[i];
        if !(c == ' ' || c == '\t' || c == '\r' || c == '\n') {
            return false;
        }
        i = i + 1;
    }
    true
}

fn push_note_lines(out: &mut String, notes: &String, d: usize)
    ensures
        final(out)@ == old(out)@ + note_lines_text(lines_of(notes@), d as nat),
{
    let cs = chars_of(notes.as_str());
    let ls = split_lines(&cs);
    let ghost want = lines_of(notes@);
    let mut i: usize = 0;
    while i < ls.len()
        invariant
            cs@ == notes@,
            ls@.len() == want.len(),
            forall|k: int| 0 <= k < ls@.len() ==> (#[trigger] ls@[k])@ == want[k],
            i <= ls@.len(),
            out@ == old(out)@ + note_lines_text(want.subrange(0, i as int), d as nat),
        decreases ls@.len() - i,
    {
        push_indent(out, d);
        push_text(out, "    ");
        push_chars(out, &ls[i]);
        push_text(out, "\n");
        proof {
            let p = want.subrange(0, i + 1);
            assert(p.drop_last() == want.subrange(0, i as int));
            assert(p.last() == want[i as int]);
        }
        i = i + 1;
    }
    assert(want.subrange(0, want.len() as int) == want);
}


fn push_task_line(out: &mut String, it: &Item, d: usize)
    ensures
        final(out)@ == old(out)@ + task_line_text(*it, d as nat),
{
    push_indent(out, d);
    push_text(out, "- [");
    push_text(out, it.status.to_tag());
    push_text(out, "] ");
    push_text(out, it.title.as_str());
    push_text(out, "\n");
}

fn push_times(out: &mut String, it: &Item, d: usize)
    ensures
        final(out)@ == old(out)@ + times_text(*it, d as nat),
{
    push_indent(out, d);
    push_text(out, "  est: ");
    push_hours_field(out, it.track.estimate);
    push_text(out, "\n");
    push_indent(out, d);
    push_text(out, "  elapsed: ");
    push_hours_field(out, it.track.elapsed);
    push_text(out, "\n");
}

fn push_completed(out: &mut String, it: &Item, d: usize)
    requires
        it.own_ok(),
    ensures
        final(out)@ == old(out)@ + completed_text(*it, d as nat),
{
    match it.completed_at {
        Some(c) => {
            push_indent(out, d);
            push_text(out, "  completed: ");
            let t = c.to_rfc3339();
            push_text(out, t.as_str());
            push_text(out, "\n");
        },
        None => {
            assert(old(out)@ + Seq::<char>::empty() == old(out)@);
        },
    }
}

fn push_tags(out: &mut String, it: &Item, d: usize)
    ensures
        final(out)@ == old(out)@ + tags_text(*it, d as nat),
{
    if it.tags.len() > 0 {
        push_indent(out, d);
        push_text(out, "  tags: ");
        push_joined(out, &it.tags);
        push_text(out, "\n");
    } else {
        assert(old(out)@ + Seq::<char>::empty() == old(out)@);
    }
}

fn push_notes(out: &mut String, it: &Item, d: usize)
    ensures
        final(out)@ == old(out)@ + notes_text(*it, d as nat),
{
    if !blank_text(&it.notes) {
        push_indent(out, d);
        push_text(out, "  notes: |\n");
        push_note_lines(out, &it.notes, d);
    } else {
        assert(old(out)@ + Seq::<char>::empty() == old(out)@);
    }
}

fn push_fields(out: &mut String, it: &Item, d: usize)
    requires
        it.own_ok(),
    ensures
        final(out)@ == old(out)@ + fields_text(*it, d as nat),
{
    push_times(out, it, d);
    push_completed(out, it, d);
    push_tags(out, it, d);
    push_notes(out, it, d);
}

pub(crate) fn push_minutes_hours(out: &mut String, secs: i64)
    requires
        -4611686018427387904 <= secs <= 4611686018427387904,
    ensures
        final(out)@ == old(out)@ + hours_field(whole_minutes(secs as int)),
{
    let m: i64 = if secs < 0 { -(((-secs) / 60) * 60) } else { (secs / 60) * 60 };
    push_hours_field(out, m);
}

fn push_calendar(out: &mut String, it: &Item, d: usize)
    requires
        it.own_ok(),
    ensures
        final(out)@ == old(out)@ + calendar_text(*it, d as nat),
{
    match it.calendar_time() {
        Some(cal) => {
            push_indent(out, d);
            push_text(out, "    Calendar Time: ");
            push_minutes_hours(out, cal);
            push_text(out, "\n");
        },
        None => {
            assert(old(out)@ + Seq::<char>::empty() == old(out)@);
        },
    }
}

fn push_active_time(out: &mut String, it: &Item, d: usize, now: Stamp)
    requires
        it.own_ok(),
        now.wf(),
    ensures
        final(out)@ == old(out)@ + active_time_text(*it, d as nat, now),
{
    let run = it.running_time(now);
    proof {
        lemma_running_time_bound(*it, now);
    }
    push_indent(out, d);
    push_text(out, "    Active Time: ");
    push_minutes_hours(out, run);
    push_text(out, "\n");
}

fn push_counts(out: &mut String, it: &Item, d: usize)
    ensures
        final(out)@ == old(out)@ + counts_text(*it, d as nat),
{
    push_indent(out, d);
    push_text(out, "    Interruptions: ");
    push_nat(out, it.interruption_count() as u64);
    push_text(out, "\n");
    push_indent(out, d);
    push_text(out, "    Sessions: ");
    push_nat(out, it.session_count() as u64);
    push_text(out, "\n");
}

fn push_analytics(out: &mut String, it: &Item, d: usize, now: Stamp)
    requires
        it.own_ok(),
        now.wf(),
    ensures
        final(out)@ == old(out)@ + analytics_text(*it, d as nat, now),
{
    push_indent(out, d);
    push_text(out, "  Analytics:\n");
    push_calendar(out, it, d);
    push_active_time(out, it, d, now);
    push_counts(out, it, d);
}

/// The running time of a well-formed item stays within the supported range.
pub proof fn lemma_running_time_bound(it: Item, now: Stamp)
    requires
        it.own_ok(),
        now.wf(),
    ensures
        -4611686018427387904 <= spec_running_time(it, now) <= 4611686018427387904,
{
    lemma_run_scan_bound(it.state_history@, it.state_history@.len());
    let h = it.state_history@;
    if h.len() > 0 {
        assert(h[0].timestamp.wf());
        assert(h[h.len() - 1].timestamp.wf());
    }
}

proof fn lemma_run_scan_bound(h: Seq<StateEvent>, n: nat)
    requires
        history_ok(h),
        n <= h.len(),
    ensures
        0 <= run_scan(h, n).0,
        n > 0 ==> run_scan(h, n).0 <= h[n - 1].timestamp.secs - h[0].timestamp.secs,
        run_scan(h, n).1 is Some ==> n > 0 && h[0].timestamp.secs <= run_scan(h, n).1->0 <= h[n - 1].timestamp.secs,
        run_scan(h, n).1 is Some ==> run_scan(h, n).0 <= run_scan(h, n).1->0 - h[0].timestamp.secs,
        n == 0 ==> run_scan(h, n).1 is None,
    decreases n,
{
    if n > 0 {
        lemma_run_scan_bound(h, (n - 1) as nat);
        assert(h[0].timestamp.secs <= h[n - 1].timestamp.secs);
        if n > 1 {
            assert(h[n - 2].timestamp.secs <= h[n - 1].timestamp.secs);
        }
    }
}

fn push_tail(out: &mut String, it: &Item, d: usize)
    requires
        it.own_ok(),
    ensures
        final(out)@ == old(out)@ + tail_text(*it, d as nat),
{
    let ghost o0 = out@;
    push_indent(out, d);
    push_text(out, "  created: ");
    let t = it.created_at.to_rfc3339();
    push_text(out, t.as_str());
    push_text(out, "\n");
    let ghost o1 = out@;
    if it.state_history.len() > 0 {
        push_indent(out, d);
        push_text(out, "  history:\n");
        push_history(out, &it.state_history, d);
    }
}

fn push_record(out: &mut String, it: &Item, d: usize, analytics: bool, now: Stamp)
    requires
        it.own_ok(),
        now.wf(),
    ensures
        final(out)@ == old(out)@ + record_text(*it, d as nat, analytics, now),
{
    let ghost o0 = out@;
    push_task_line(out, it, d);
    push_fields(out, it, d);
    let ghost o1 = out@;
    if analytics && it.status == RunStatus::Done {
        push_analytics(out, it, d, now);
    }
    let ghost o2 = out@;
    push_tail(out, it, d);
    proof {
        reveal(record_text);
        let x = if analytics && it.status == RunStatus::Done {
            analytics_text(*it, d as nat, now)
        } else {
            Seq::<char>::empty()
        };
        assert(o2 == o1 + x);
    }
}

fn push_subtasks(out: &mut String, it: &Item, analytics: bool, now: Stamp)
    requires
        it.wf(),
        now.wf(),
    ensures
        final(out)@ == old(out)@ + subtasks_text(it.subtasks@, it.subtasks@.len(), analytics, now),
{
    let mut i: usize = 0;
    while i < it.subtasks.len()
        invariant
            it.wf(),
            now.wf(),
            i <= it.subtasks@.len(),
            out@ == old(out)@ + subtasks_text(it.subtasks@, i as nat, analytics, now),
        decreases it.subtasks@.len() - i,
    {
        let st = &it.subtasks[i];
        assert(it.subtasks@[i as int].leaf_ok());
        if analytics || st.status.is_active() || st.status == RunStatus::Done {
            push_record(out, st, 1, analytics, now);
        } else {
            assert(out@ + Seq::<char>::empty() == out@);
        }
        i = i + 1;
    }
}

/// Serialize one top-level item with its subtasks.
pub fn serialize_item(it: &Item, analytics: bool, now: Stamp) -> (r: String)
    requires
        it.wf(),
        now.wf(),
    ensures
        r@ == item_text(*it, analytics, now),
{
    let mut out = String::new();
    push_record(&mut out, it, 0, analytics, now);
    let ghost o1 = out@;
    if it.subtasks.len() > 0 {
        push_text(&mut out, "  subtasks:\n");
        push_subtasks(&mut out, it, analytics, now);
    }
    proof {
        reveal(item_text);
        if it.subtasks@.len() == 0 {
            assert(o1 + Seq::<char>::empty() == o1);
        }
    }
    out
}

fn push_items(out: &mut String, items: &[Item], only_active: bool, analytics: bool, now: Stamp)
    requires
        forall|k: int| 0 <= k < items@.len() ==> (#[trigger] items@[k]).wf(),
        now.wf(),
    ensures
        final(out)@ == old(out)@ + items_text(items@, items@.len(), only_active, analytics, now),
{
    let mut i: usize = 0;
    while i < items.len()
        invariant
            forall|k: int| 0 <= k < items@.len() ==> (#[trigger] items@[k]).wf(),
            now.wf(),
            i <= items@.len(),
            out@ == old(out)@ + items_text(items@, i as nat, only_active, analytics, now),
        decreases items@.len() - i,
    {
        assert(items@[i as int].wf());
        if !only_active || items[i].status.is_active() {
            let t = serialize_item(&items[i], analytics, now);
            push_text(out, t.as_str());
            push_text(out, "\n");
        }
        i = i + 1;
    }
}

/// Serialize the active, done and archived lists into a daily file for `date`.
/// Only active-status items are written to the active section; done records
/// carry an analytics block; a section with no items is left out (but for
/// the active one).
pub fn serialize_daily_file_with_date(
    active_items: &[Item],
    done_items: &[Item],
    archived_items: &[Item],
    date: Stamp,
    now: Stamp,
) -> (r: String)
    requires
        forall|k: int| 0 <= k < active_items@.len() ==> (#[trigger] active_items@[k]).wf(),
        forall|k: int| 0 <= k < done_items@.len() ==> (#[trigger] done_items@[k]).wf(),
        forall|k: int| 0 <= k < archived_items@.len() ==> (#[trigger] archived_items@[k]).wf(),
        date.wf(),
        now.wf(),
    ensures
        r@ == daily_text(active_items@, done_items@, archived_items@, date, now),
{
    let mut out = String::new();
    push_text(&mut out, "# ");
    let day = date.ymd();
    push_text(&mut out, day.as_str());
    push_text(&mut out, "\n\n");
    push_text(&mut out, "## ACTIVE\n\n");
    push_items(&mut out, active_items, true, false, now);
    let ghost o1 = out@;
    if done_items.len() > 0 {
        push_text(&mut out, "## DONE\n\n");
        push_items(&mut out, done_items, false, true, now);
    }
    let ghost o2 = out@;
    if archived_items.len() > 0 {
        push_text(&mut out, "## ARCHIVED\n\n");
        push_items(&mut out, archived_items, false, false, now);
    }
    proof {
        let x = if done_items@.len() > 0 {
            "## DONE\n\n"@ + items_text(done_items@, done_items@.len(), false, true, now)
        } else {
            Seq::<char>::empty()
        };
        assert(o2 == o1 + x);
    }
    out
}

/// Serialize the daily file with `now` as its date.
pub fn serialize_daily_file(active_items: &[Item], done_items: &[Item], archived_items: &[Item], now: Stamp) -> (r: String)
    requires
        forall|k: int| 0 <= k < active_items@.len() ==> (#[trigger] active_items@[k]).wf(),
        forall|k: int| 0 <= k < done_items@.len() ==> (#[trigger] done_items@[k]).wf(),
        forall|k: int| 0 <= k < archived_items@.len() ==> (#[trigger] archived_items@[k]).wf(),
        now.wf(),
    ensures
        r@ == daily_text(active_items@, done_items@, archived_items@, now, now),
{
    serialize_daily_file_with_date(active_items, done_items, archived_items, now, now)
}


/// Whether a trimmed line is a section header.
pub open spec fn is_section_header(t: Seq<char>) -> bool {
    t == "## ACTIVE"@ || t == "## DONE"@ || t == "## ARCHIVED"@
}

/// No line in `from..to` is a section header.
pub open spec fn no_headers(lines: Seq<Vec<char>>, from: int, to: int) -> bool {
    forall|k: int| from <= k < to ==> !is_section_header(trim((#[trigger] lines[k])@))
}

/// The section in force before line `k`: the last header above it, or the
/// active section when there is none.
pub open spec fn section_at(ls: Seq<Seq<char>>, k: nat) -> Section
    decreases k,
{
    if k == 0 {
        Section::Active
    } else {
        let t = trim(ls[k - 1]);
        if t == "## ACTIVE"@ {
            Section::Active
        } else if t == "## DONE"@ {
            Section::Done
        } else if t == "## ARCHIVED"@ {
            Section::Archived
        } else {
            section_at(ls, (k - 1) as nat)
        }
    }
}

/// An item read from the task line `k` of a file, in section `sec`.
pub open spec fn read_at(ls: Seq<Seq<char>>, k: int, it: Item, sec: Section) -> bool {
    &&& 0 <= k < ls.len()
    &&& section_at(ls, k as nat) == sec
    &&& task_line_value(trim(ls[k])) == Ok::<(RunStatus, Seq<char>), ParseError>((it.status, it.title@))
}

/// An item read from some task line of a file, in section `sec`.
pub open spec fn read_in(ls: Seq<Seq<char>>, it: Item, sec: Section) -> bool {
    exists|j: int| read_at(ls, j, it, sec)
}

proof fn lemma_section_unchanged(ls: Seq<Seq<char>>, i: nat, j: nat)
    requires
        i <= j <= ls.len(),
        forall|k: int| i <= k < j ==> !is_section_header(trim(#[trigger] ls[k])),
    ensures
        section_at(ls, j) == section_at(ls, i),
    decreases j - i,
{
    if j > i {
        lemma_section_unchanged(ls, i, (j - 1) as nat);
        assert(!is_section_header(trim(ls[j - 1])));
    }
}

fn section_of(t: &[char]) -> (r: Option<Section>)
    ensures
        r == (if t@ == "## ACTIVE"@ {
            Some(Section::Active)
        } else if t@ == "## DONE"@ {
            Some(Section::Done)
        } else if t@ == "## ARCHIVED"@ {
            Some(Section::Archived)
        } else {
            None::<Section>
        }),
{
    if is_text(t, "## ACTIVE") {
        Some(Section::Active)
    } else if is_text(t, "## DONE") {
        Some(Section::Done)
    } else if is_text(t, "## ARCHIVED") {
        Some(Section::Archived)
    } else {
        None
    }
}

/// The characters after a field name, trimmed.
pub(crate) fn field_rest(t: &[char], name: &str) -> (r: Vec<char>)
    requires
        starts_with(t@, name@),
    ensures
        r@ == trim(t@.subrange(name@.len() as int, t@.len() as int)),
{
    let n = chars_of(name).len();
    let rest = slice_of(t, n, t.len());
    trimmed(&rest)
}

fn indent_len(depth: usize) -> (r: usize)
    requires
        depth <= 1,
    ensures
        r == 4 * depth,
{
    if depth == 0 { 0 } else { 4 }
}

/// The characters of each line.
pub open spec fn line_views(v: Seq<Vec<char>>) -> Seq<Seq<char>> {
    v.map_values(|l: Vec<char>| l@)
}

/// Whether a line starts with `k` spaces.
pub open spec fn spaces_pre(l: Seq<char>, k: int) -> bool {
    k <= l.len() && forall|j: int| 0 <= j < k ==> l[j] == ' '
}

/// Where a notes block that begins at line `i` ends: blank lines and lines
/// indented by `pre` (not starting a record) belong to it; a section header
/// or any other line ends it.
pub open spec fn notes_end(ls: Seq<Seq<char>>, i: int, pre: int) -> int
    decreases ls.len() - i,
{
    if i < 0 || i >= ls.len() {
        i
    } else {
        let t = trim(ls[i]);
        if is_section_header(t) {
            i
        } else if t.len() == 0 {
            notes_end(ls, i + 1, pre)
        } else if spaces_pre(ls[i], pre) && !starts_with(t, "- ["@) {
            notes_end(ls, i + 1, pre)
        } else {
            i
        }
    }
}

/// Whether line `l` is a history entry line at indentation `pre`.
pub open spec fn is_entry_line(l: Seq<char>, pre: int) -> bool {
    spaces_pre(l, pre) && l.len() >= pre + 2 && l[pre] == '-' && l[pre + 1] == ' '
}

/// Where a history list that begins at line `i` ends: blank lines and entry
/// lines belong to it; a section header or any other line ends it.
pub open spec fn history_end(ls: Seq<Seq<char>>, i: int, pre: int) -> int
    decreases ls.len() - i,
{
    if i < 0 || i >= ls.len() {
        i
    } else {
        let t = trim(ls[i]);
        if is_section_header(t) {
            i
        } else if t.len() == 0 || is_entry_line(ls[i], pre) {
            history_end(ls, i + 1, pre)
        } else {
            i
        }
    }
}

/// The single-line fields of a record, as read.
pub struct FieldsView {
    pub est: int,
    pub el: int,
    pub tags: Seq<Seq<char>>,
    pub created: Option<Stamp>,
    pub completed: Option<Stamp>,
    pub history: Seq<StateEvent>,
    pub notes: Seq<char>,
}

/// A subtask record, as read.
pub struct SubView {
    pub status: RunStatus,
    pub title: Seq<char>,
    pub fields: FieldsView,
}

/// Fields before any field line was read.
pub open spec fn empty_fields() -> FieldsView {
    FieldsView { est: 0, el: 0, tags: Seq::empty(), created: None, completed: None, history: Seq::empty(), notes: Seq::empty() }
}

/// The value after a field name, trimmed.
pub open spec fn rest_after(t: Seq<char>, n: int) -> Seq<char> {
    trim(t.subrange(n, t.len() as int))
}

/// A duration field's value; a malformed one reads as zero.
pub open spec fn dur_or_zero(s: Seq<char>) -> int {
    match crate::hours::duration_value(s) {
        Some(v) => v,
        None => 0,
    }
}

/// The next line to read after a block that began after line `j` and ended at `e`.
pub open spec fn after_block(ls: Seq<Seq<char>>, j: int, e: int) -> int {
    if j < e <= ls.len() {
        e
    } else {
        j + 1
    }
}

/// The field lines of a record from line `j` on (at depth `depth`): the
/// single-line fields read so far in `f`, the subtasks in `subs`; gives the
/// fields, the subtasks and the first line after the record. A field read
/// twice keeps its last value.
pub open spec fn fields_scan(ls: Seq<Seq<char>>, j: int, depth: int, f: FieldsView, subs: Seq<SubView>) -> (FieldsView, Seq<SubView>, int)
    decreases ls.len() - j, 0int,
{
    if j < 0 || j >= ls.len() {
        (f, subs, j)
    } else {
        let t = trim(ls[j]);
        if is_section_header(t) || starts_with(t, "- ["@) {
            (f, subs, j)
        } else if starts_with(t, "est:"@) {
            fields_scan(ls, j + 1, depth, FieldsView { est: dur_or_zero(rest_after(t, "est:"@.len() as int)), ..f }, subs)
        } else if starts_with(t, "elapsed:"@) {
            fields_scan(ls, j + 1, depth, FieldsView { el: dur_or_zero(rest_after(t, "elapsed:"@.len() as int)), ..f }, subs)
        } else if starts_with(t, "notes:"@) {
            fields_scan(
                ls,
                after_block(ls, j, notes_end(ls, j + 1, 4 * depth + 4)),
                depth,
                FieldsView { notes: notes_value(notes_kept(ls, j + 1, 4 * depth + 4, Seq::empty())), ..f },
                subs,
            )
        } else if starts_with(t, "tags:"@) {
            fields_scan(ls, j + 1, depth, FieldsView { tags: tags_value(rest_after(t, "tags:"@.len() as int)), ..f }, subs)
        } else if starts_with(t, "created:"@) {
            fields_scan(ls, j + 1, depth, FieldsView { created: Stamp::spec_parse(rest_after(t, "created:"@.len() as int)), ..f }, subs)
        } else if starts_with(t, "completed:"@) {
            fields_scan(ls, j + 1, depth, FieldsView { completed: Stamp::spec_parse(rest_after(t, "completed:"@.len() as int)), ..f }, subs)
        } else if starts_with(t, "history:"@) {
            fields_scan(
                ls,
                after_block(ls, j, history_end(ls, j + 1, 4 * depth + 4)),
                depth,
                FieldsView { history: history_scan(ls, j + 1, 4 * depth + 4, Seq::empty()), ..f },
                subs,
            )
        } else if depth == 0 && starts_with(t, "subtasks:"@) {
            let r = subs_scan(ls, j + 1, Seq::empty());
            fields_scan(ls, after_block(ls, j, r.1), depth, f, r.0)
        } else {
            fields_scan(ls, j + 1, depth, f, subs)
        }
    }
}

/// The subtask records of a subtask list from line `i` on, after those in
/// `acc`; gives them and the first line after the list.
pub open spec fn subs_scan(ls: Seq<Seq<char>>, i: int, acc: Seq<SubView>) -> (Seq<SubView>, int)
    decreases ls.len() - i, 1int,
{
    if i < 0 || i >= ls.len() {
        (acc, i)
    } else {
        let raw = ls[i];
        let t = trim(raw);
        if is_section_header(t) {
            (acc, i)
        } else if starts_with(raw, "    - ["@) {
            match task_line_value(t) {
                Ok(v) => {
                    let r = fields_scan(ls, i + 1, 1, empty_fields(), Seq::empty());
                    subs_scan(ls, after_block(ls, i, r.2), acc.push(SubView { status: v.0, title: v.1, fields: r.0 }))
                },
                Err(_) => subs_scan(ls, i + 1, acc),
            }
        } else if t.len() == 0 {
            subs_scan(ls, i + 1, acc)
        } else if starts_with(t, "- ["@) || !spaces_pre(raw, 4) {
            (acc, i)
        } else {
            subs_scan(ls, i + 1, acc)
        }
    }
}

/// An item holds the single-line fields read (creation defaults to `now`).
pub open spec fn fields_match(it: Item, f: FieldsView, now: Stamp) -> bool {
    &&& it.track.estimate == f.est
    &&& it.track.elapsed == f.el
    &&& views(it.tags@) == f.tags
    &&& it.created_at == match f.created {
        Some(c) => c,
        None => now,
    }
    &&& it.completed_at == f.completed
    &&& it.state_history@ == history_or_initial(f.history, now)
    &&& it.notes@ == f.notes
}

/// The history read, or, when none was, a single initial Idle event at `now`.
pub open spec fn history_or_initial(h: Seq<StateEvent>, now: Stamp) -> Seq<StateEvent> {
    if h.len() > 0 {
        h
    } else {
        seq![(StateEvent { timestamp: now, from_status: None, to_status: RunStatus::Idle })]
    }
}

/// An item is the subtask record read.
pub open spec fn sub_match(it: Item, v: SubView, now: Stamp) -> bool {
    &&& it.status == v.status
    &&& it.title@ == v.title
    &&& fields_match(it, v.fields, now)
}

/// Each item is the record read at the same position.
pub open spec fn subs_match(items: Seq<Item>, vs: Seq<SubView>, now: Stamp) -> bool {
    &&& items.len() == vs.len()
    &&& forall|k: int| 0 <= k < items.len() ==> sub_match(#[trigger] items[k], vs[k], now)
}

/// A top-level record, as read.
pub struct TopView {
    pub status: RunStatus,
    pub title: Seq<char>,
    pub fields: FieldsView,
    pub subs: Seq<SubView>,
}

/// The record whose task line is line `i` (with value `v`), as read.
pub open spec fn top_at(ls: Seq<Seq<char>>, i: int, v: (RunStatus, Seq<char>)) -> TopView {
    let sc = fields_scan(ls, i + 1, 0, empty_fields(), Seq::empty());
    TopView { status: v.0, title: v.1, fields: sc.0, subs: sc.1 }
}

/// The first line after the record whose task line is line `i`.
pub open spec fn top_next(ls: Seq<Seq<char>>, i: int) -> int {
    after_block(ls, i, fields_scan(ls, i + 1, 0, empty_fields(), Seq::empty()).2)
}

/// The records of a daily file from line `i` on, in section `sec`, added to
/// the active, done and archived records read so far.
pub open spec fn daily_scan(ls: Seq<Seq<char>>, i: int, sec: Section, a: Seq<TopView>, d: Seq<TopView>, r: Seq<TopView>) -> (Seq<TopView>, Seq<TopView>, Seq<TopView>)
    decreases ls.len() - i,
{
    if i < 0 || i >= ls.len() {
        (a, d, r)
    } else {
        let t = trim(ls[i]);
        if t == "## ACTIVE"@ {
            daily_scan(ls, i + 1, Section::Active, a, d, r)
        } else if t == "## DONE"@ {
            daily_scan(ls, i + 1, Section::Done, a, d, r)
        } else if t == "## ARCHIVED"@ {
            daily_scan(ls, i + 1, Section::Archived, a, d, r)
        } else if starts_with(t, "- ["@) {
            match task_line_value(t) {
                Ok(v) => {
                    let tv = top_at(ls, i, v);
                    match sec {
                        Section::Active => daily_scan(ls, top_next(ls, i), sec, a.push(tv), d, r),
                        Section::Done => daily_scan(ls, top_next(ls, i), sec, a, d.push(tv), r),
                        Section::Archived => daily_scan(ls, top_next(ls, i), sec, a, d, r.push(tv)),
                    }
                },
                Err(_) => daily_scan(ls, i + 1, sec, a, d, r),
            }
        } else {
            daily_scan(ls, i + 1, sec, a, d, r)
        }
    }
}

/// The records of a single-list file from line `i` on, after those in `acc`.
pub open spec fn markdown_scan(ls: Seq<Seq<char>>, i: int, acc: Seq<TopView>) -> Seq<TopView>
    decreases ls.len() - i,
{
    if i < 0 || i >= ls.len() {
        acc
    } else {
        let t = trim(ls[i]);
        if t.len() == 0 || t[0] == '#' {
            markdown_scan(ls, i + 1, acc)
        } else if starts_with(t, "- ["@) {
            match task_line_value(t) {
                Ok(v) => markdown_scan(ls, top_next(ls, i), acc.push(top_at(ls, i, v))),
                Err(_) => markdown_scan(ls, i + 1, acc),
            }
        } else {
            markdown_scan(ls, i + 1, acc)
        }
    }
}

/// An item is the top-level record read, its subtasks included.
pub open spec fn top_match(it: Item, v: TopView, now: Stamp) -> bool {
    &&& it.status == v.status
    &&& it.title@ == v.title
    &&& fields_match(it, v.fields, now)
    &&& subs_match(it.subtasks@, v.subs, now)
}

/// Each item is the record read at the same position.
pub open spec fn tops_match(items: Seq<Item>, vs: Seq<TopView>, now: Stamp) -> bool {
    &&& items.len() == vs.len()
    &&& forall|k: int| 0 <= k < items.len() ==> top_match(#[trigger] items[k], vs[k], now)
}

/// Whether a raw line starts with `k` spaces.
fn spaces_prefix(raw: &[char], k: usize) -> (r: bool)
    ensures
        r == (k <= raw@.len() && forall|j: int| 0 <= j < k ==> raw@[j] == ' '),
{
    if k > raw.len() {
        return false;
    }
    let mut j: usize = 0;
    while j < k
        invariant
            k <= raw@.len(),
            j <= k,
            forall|q: int| 0 <= q < j ==> raw@[q] == ' ',
        decreases k - j,
    {
        if raw[j] != ' ' {
            return false;
        }
        j = j + 1;
    }
    true
}

/// The lines kept by a notes block from line `i` on, after those in `acc`:
/// blank lines as empty lines, indented lines without their indentation.
pub open spec fn notes_kept(ls: Seq<Seq<char>>, i: int, pre: int, acc: Seq<Seq<char>>) -> Seq<Seq<char>>
    decreases ls.len() - i,
{
    if i < 0 || i >= ls.len() {
        acc
    } else {
        let t = trim(ls[i]);
        if is_section_header(t) {
            acc
        } else if t.len() == 0 {
            notes_kept(ls, i + 1, pre, acc.push(Seq::empty()))
        } else if spaces_pre(ls[i], pre) && !starts_with(t, "- ["@) {
            notes_kept(ls, i + 1, pre, acc.push(ls[i].subrange(pre, ls[i].len() as int)))
        } else {
            acc
        }
    }
}

/// The first line at or after `a` that is not empty (or the end).
pub open spec fn skip_front(k: Seq<Seq<char>>, a: int) -> int
    decreases k.len() - a,
{
    if a < 0 || a >= k.len() || k[a].len() > 0 {
        a
    } else {
        skip_front(k, a + 1)
    }
}

/// The end of the lines from `a` on without trailing empty lines, looking back from `b`.
pub open spec fn skip_back(k: Seq<Seq<char>>, a: int, b: int) -> int
    decreases b - a,
{
    if b <= a || b > k.len() || k[b - 1].len() > 0 {
        b
    } else {
        skip_back(k, a, b - 1)
    }
}

/// Lines joined by line feeds.
pub open spec fn join_lines(ls: Seq<Seq<char>>) -> Seq<char>
    decreases ls.len(),
{
    if ls.len() == 0 {
        Seq::empty()
    } else if ls.len() == 1 {
        ls[0]
    } else {
        join_lines(ls.drop_last()) + seq!['\n'] + ls.last()
    }
}

/// The notes text of kept lines: empty lines at either end dropped, the rest joined.
pub open spec fn notes_value(k: Seq<Seq<char>>) -> Seq<char> {
    let a = skip_front(k, 0);
    join_lines(k.subrange(a, skip_back(k, a, k.len() as int)))
}

/// Read the lines of a notes block: lines indented past the field (or blank),
/// up to the first that is not; blank lines at either end are dropped.
fn parse_notes(lines: &Vec<Vec<char>>, start: usize, depth: usize) -> (r: (String, usize))
    requires
        start <= lines@.len(),
        depth <= 1,
    ensures
        start <= r.1 <= lines@.len(),
        no_headers(lines@, start as int, r.1 as int),
        r.1 == notes_end(line_views(lines@), start as int, 4 * depth + 4),
        r.0@ == notes_value(notes_kept(line_views(lines@), start as int, 4 * depth + 4, Seq::empty())),
{
    let pre = indent_len(depth) + 4;
    let mut kept: Vec<Vec<char>> = Vec::new();
    let mut i = start;
    let ghost ls = line_views(lines@);
    assert(line_views(kept@) =~= Seq::<Seq<char>>::empty());
    while i < lines.len()
        invariant
            start <= i <= lines@.len(),
            pre == 4 * depth + 4,
            no_headers(lines@, start as int, i as int),
            ls == line_views(lines@),
            notes_end(ls, start as int, pre as int) == notes_end(ls, i as int, pre as int),
            notes_kept(ls, start as int, pre as int, Seq::empty()) == notes_kept(ls, i as int, pre as int, line_views(kept@)),
        ensures
            notes_kept(ls, start as int, pre as int, Seq::empty()) == line_views(kept@),
            notes_end(ls, start as int, pre as int) == i as int,
            start <= i <= lines@.len(),
            no_headers(lines@, start as int, i as int),
        decreases lines@.len() - i,
    {
        assert(ls[i as int] == lines@[i as int]@);
        let raw = &lines[i];
        let t = trimmed(raw);
        if section_of(&t).is_some() {
            assert(notes_end(ls, i as int, pre as int) == i as int);
            break;
        }
        if t.len() == 0 {
            let ghost k0 = line_views(kept@);
            kept.push(Vec::new());
            assert(line_views(kept@) =~= k0.push(Seq::<char>::empty()));
            i = i + 1;
        } else if spaces_prefix(raw, pre) && !has_prefix(&t, "- [") {
            let ghost k0 = line_views(kept@);
            kept.push(slice_of(raw, pre, raw.len()));
            assert(line_views(kept@) =~= k0.push(ls[i as int].subrange(pre as int, ls[i as int].len() as int)));
            i = i + 1;
        } else {
            assert(notes_end(ls, i as int, pre as int) == i as int);
            break;
        }
    }
    let ghost kv = line_views(kept@);
    let mut a: usize = 0;
    while a < kept.len() && kept[a].len() == 0
        invariant
            a <= kept@.len(),
            kv == line_views(kept@),
            skip_front(kv, 0) == skip_front(kv, a as int),
        decreases kept@.len() - a,
    {
        assert(kv[a as int] == kept@[a as int]@);
        a = a + 1;
    }
    proof {
        if a < kept.len() {
            assert(kv[a as int] == kept@[a as int]@);
        }
    }
    let mut b: usize = kept.len();
    while b > a && kept[b - 1].len() == 0
        invariant
            a <= b <= kept@.len(),
            kv == line_views(kept@),
            skip_back(kv, a as int, kv.len() as int) == skip_back(kv, a as int, b as int),
        decreases b,
    {
        assert(kv[b - 1] == kept@[b - 1]@);
        b = b - 1;
    }
    proof {
        if b > a {
            assert(kv[b - 1] == kept@[b - 1]@);
        }
    }
    let mut notes = String::new();
    let mut k: usize = a;
    while k < b
        invariant
            a <= k <= b <= kept@.len(),
            kv == line_views(kept@),
            notes@ == join_lines(kv.subrange(a as int, k as int)),
        decreases b - k,
    {
        let ghost before = notes@;
        if k > a {
            notes.push('\n');
        }
        push_chars(&mut notes, &kept[k]);
        proof {
            let p = kv.subrange(a as int, k + 1);
            assert(kv[k as int] == kept@[k as int]@);
            if k > a {
                assert(p.drop_last() == kv.subrange(a as int, k as int));
                assert(p.last() == kv[k as int]);
            } else {
                assert(p.len() == 1);
                assert(p[0] == kv[k as int]);
            }
        }
        k = k + 1;
    }
    (notes, i)
}

/// The first `: ` at or after position `k`.
pub open spec fn first_colon(e: Seq<char>, k: int) -> Option<int>
    decreases e.len() - k,
{
    if k < 0 || k + 1 >= e.len() {
        None
    } else if e[k] == ':' && e[k + 1] == ' ' {
        Some(k)
    } else {
        first_colon(e, k + 1)
    }
}

/// The first ` -> ` at or after position `a`.
pub open spec fn first_arrow(r: Seq<char>, a: int) -> Option<int>
    decreases r.len() - a,
{
    if a < 0 || a + 3 >= r.len() {
        None
    } else if r[a] == ' ' && r[a + 1] == '-' && r[a + 2] == '>' && r[a + 3] == ' ' {
        Some(a)
    } else {
        first_arrow(r, a + 1)
    }
}

/// The event a history entry `<RFC 3339>: STATUS` or `<RFC 3339>: FROM -> TO` states.
pub open spec fn event_value(e: Seq<char>) -> Option<StateEvent> {
    match first_colon(e, 0) {
        None => None,
        Some(k) => match Stamp::spec_parse(e.subrange(0, k)) {
            None => None,
            Some(st) => {
                let rest = e.subrange(k + 2, e.len() as int);
                match first_arrow(rest, 0) {
                    Some(a) => match (
                        RunStatus::spec_from_tag(trim(rest.subrange(0, a))),
                        RunStatus::spec_from_tag(trim(rest.subrange(a + 4, rest.len() as int))),
                    ) {
                        (Some(f), Some(t)) => Some(StateEvent { timestamp: st, from_status: Some(f), to_status: t }),
                        _ => None,
                    },
                    None => match RunStatus::spec_from_tag(trim(rest)) {
                        Some(t) => Some(StateEvent { timestamp: st, from_status: None, to_status: t }),
                        None => None,
                    },
                }
            },
        },
    }
}

/// The events of a history list from line `i` on, after those in `h`:
/// entries that cannot be read, or that lie before the previous one, are dropped.
pub open spec fn history_scan(ls: Seq<Seq<char>>, i: int, pre: int, h: Seq<StateEvent>) -> Seq<StateEvent>
    decreases ls.len() - i,
{
    if i < 0 || i >= ls.len() {
        h
    } else {
        let t = trim(ls[i]);
        if is_section_header(t) {
            h
        } else if t.len() == 0 {
            history_scan(ls, i + 1, pre, h)
        } else if is_entry_line(ls[i], pre) {
            let h2 = match event_value(ls[i].subrange(pre + 2, ls[i].len() as int)) {
                Some(ev) => if h.len() == 0 || h.last().timestamp.secs <= ev.timestamp.secs {
                    h.push(ev)
                } else {
                    h
                },
                None => h,
            };
            history_scan(ls, i + 1, pre, h2)
        } else {
            h
        }
    }
}

/// Read one history entry `<RFC 3339>: STATUS` or `<RFC 3339>: FROM -> TO`.
fn parse_event(entry: &[char]) -> (r: Option<StateEvent>)
    ensures
        r is Some ==> r->0.timestamp.wf(),
        r == event_value(entry@),
{
    let mut k: usize = 0;
    while k < entry.len() && k + 1 < entry.len() && !(entry[k] == ':' && entry[k + 1] == ' ')
        invariant
            k <= entry@.len(),
            first_colon(entry@, 0) == first_colon(entry@, k as int),
        decreases entry@.len() - k,
    {
        k = k + 1;
    }
    if k >= entry.len() || k + 1 >= entry.len() {
        return None;
    }
    let ts = string_of(&slice_of(entry, 0, k));
    let stamp = match Stamp::parse(ts.as_str()) {
        Some(st) => st,
        None => return None,
    };
    let rest = slice_of(entry, k + 2, entry.len());
    let mut a: usize = 0;
    while rest.len() >= 4 && a <= rest.len() - 4 && !(rest[a] == ' ' && rest[a + 1] == '-' && rest[a + 2] == '>' && rest[a + 3] == ' ')
        invariant
            a <= rest@.len(),
            first_arrow(rest@, 0) == first_arrow(rest@, a as int),
        decreases rest@.len() - a,
    {
        a = a + 1;
    }
    if rest.len() >= 4 && a <= rest.len() - 4 {
        let from_t = string_of(&trimmed(&slice_of(&rest, 0, a)));
        let to_t = string_of(&trimmed(&slice_of(&rest, a + 4, rest.len())));
        match (RunStatus::from_tag(from_t.as_str()), RunStatus::from_tag(to_t.as_str())) {
            (Some(f), Some(t)) => Some(StateEvent { timestamp: stamp, from_status: Some(f), to_status: t }),
            _ => None,
        }
    } else {
        let to_t = string_of(&trimmed(&rest));
        match RunStatus::from_tag(to_t.as_str()) {
            Some(t) => Some(StateEvent { timestamp: stamp, from_status: None, to_status: t }),
            None => None,
        }
    }
}

/// Read a history list. Entries that cannot be read, or that lie before the
/// previous entry, are dropped.
fn parse_history(lines: &Vec<Vec<char>>, start: usize, depth: usize) -> (r: (Vec<StateEvent>, usize))
    requires
        start <= lines@.len(),
        depth <= 1,
    ensures
        start <= r.1 <= lines@.len(),
        history_ok(r.0@),
        no_headers(lines@, start as int, r.1 as int),
        r.1 == history_end(line_views(lines@), start as int, 4 * depth + 4),
        r.0@ == history_scan(line_views(lines@), start as int, 4 * depth + 4, Seq::empty()),
{
    let pre = indent_len(depth) + 4;
    let mut h: Vec<StateEvent> = Vec::new();
    let mut i = start;
    let ghost ls = line_views(lines@);
    assert(h@ =~= Seq::<StateEvent>::empty());
    while i < lines.len()
        invariant
            start <= i <= lines@.len(),
            pre == 4 * depth + 4,
            depth <= 1,
            history_ok(h@),
            no_headers(lines@, start as int, i as int),
            ls == line_views(lines@),
            history_end(ls, start as int, pre as int) == history_end(ls, i as int, pre as int),
            history_scan(ls, start as int, pre as int, Seq::empty()) == history_scan(ls, i as int, pre as int, h@),
        ensures
            history_scan(ls, start as int, pre as int, Seq::empty()) == h@,
            history_end(ls, start as int, pre as int) == i as int,
            start <= i <= lines@.len(),
            history_ok(h@),
            no_headers(lines@, start as int, i as int),
        decreases lines@.len() - i,
    {
        assert(ls[i as int] == lines@[i as int]@);
        let raw = &lines[i];
        let t = trimmed(raw);
        if section_of(&t).is_some() {
            assert(history_end(ls, i as int, pre as int) == i as int);
            break;
        }
        if t.len() == 0 {
            i = i + 1;
        } else if spaces_prefix(raw, pre) && raw.len() >= pre + 2 && raw[pre] == '-' && raw[pre + 1] == ' ' {
            let entry = slice_of(raw, pre + 2, raw.len());
            match parse_event(&entry) {
                Some(e) => {
                    let n = h.len();
                    if n == 0 || h[n - 1].timestamp.secs <= e.timestamp.secs {
                        let ghost h0 = h@;
                        h.push(e);
                        proof {
                            assert forall|x: int, y: int| 0 <= x <= y < h@.len() implies
                                h@[x].timestamp.secs <= h@[y].timestamp.secs by {
                                if y == h@.len() - 1 && x < y {
                                    assert(h0[x].timestamp.secs <= h0[n - 1].timestamp.secs);
                                }
                            }
                            assert forall|x: int| 0 <= x < h@.len() implies (#[trigger] h@[x]).timestamp.wf() by {
                                if x < n {
                                    assert(h@[x] == h0[x]);
                                }
                            }
                        }
                    }
                },
                None => {},
            }
            i = i + 1;
        } else {
            assert(history_end(ls, i as int, pre as int) == i as int);
            break;
        }
    }
    (h, i)
}

/// Read a subtask list; records that cannot be read are skipped.
fn parse_subtasks(lines: &Vec<Vec<char>>, start: usize, schedule: ScheduleDay, now: Stamp) -> (r: (Vec<Item>, usize))
    requires
        start <= lines@.len(),
        now.wf(),
    ensures
        start <= r.1 <= lines@.len(),
        forall|k: int| 0 <= k < r.0@.len() ==> (#[trigger] r.0@[k]).leaf_ok(),
        no_headers(lines@, start as int, r.1 as int),
        subs_match(r.0@, subs_scan(line_views(lines@), start as int, Seq::empty()).0, now),
        r.1 == subs_scan(line_views(lines@), start as int, Seq::empty()).1,
    decreases 0int, 2int,
{
    let mut subs: Vec<Item> = Vec::new();
    let mut i = start;
    let ghost ls = line_views(lines@);
    let ghost mut acc: Seq<SubView> = Seq::empty();
    while i < lines.len()
        invariant
            start <= i <= lines@.len(),
            now.wf(),
            forall|k: int| 0 <= k < subs@.len() ==> (#[trigger] subs@[k]).leaf_ok(),
            no_headers(lines@, start as int, i as int),
            ls == line_views(lines@),
            subs_scan(ls, start as int, Seq::empty()) == subs_scan(ls, i as int, acc),
            subs_match(subs@, acc, now),
        ensures
            start <= i <= lines@.len(),
            forall|k: int| 0 <= k < subs@.len() ==> (#[trigger] subs@[k]).leaf_ok(),
            no_headers(lines@, start as int, i as int),
            subs_scan(ls, start as int, Seq::empty()) == (acc, i as int),
            subs_match(subs@, acc, now),
        decreases lines@.len() - i,
    {
        let raw = &lines[i];
        assert(ls[i as int] == lines@[i as int]@);
        let t = trimmed(raw);
        if section_of(&t).is_some() {
            assert(subs_scan(ls, i as int, acc) == (acc, i as int));
            break;
        }
        if has_prefix(raw, "    - [") {
            match parse_record(lines, i, 1, schedule, now) {
                Ok((st, next)) => {
                    let ghost s0 = subs@;
                    let ghost sc = fields_scan(ls, i + 1, 1, empty_fields(), Seq::empty());
                    proof {
                        acc = acc.push(SubView { status: st.status, title: st.title@, fields: sc.0 });
                    }
                    subs.push(st);
                    proof {
                        assert forall|k: int| 0 <= k < subs@.len() implies sub_match(#[trigger] subs@[k], acc[k], now) by {
                            if k < s0.len() {
                                assert(subs@[k] == s0[k]);
                            }
                        }
                        assert forall|k: int| 0 <= k < subs@.len() implies (#[trigger] subs@[k]).leaf_ok() by {
                            if k < s0.len() {
                                assert(subs@[k] == s0[k]);
                            }
                        }
                    }
                    i = next;
                },
                Err(_) => {
                    i = i + 1;
                },
            }
        } else if t.len() == 0 {
            i = i + 1;
        } else if has_prefix(&t, "- [") || !spaces_prefix(raw, 4) {
            assert(subs_scan(ls, i as int, acc) == (acc, i as int));
            break;
        } else {
            i = i + 1;
        }
    }
    (subs, i)
}

/// Read one record starting at its task line; returns it with the index of
/// the first line after it.
fn parse_record(lines: &Vec<Vec<char>>, start: usize, depth: usize, schedule: ScheduleDay, now: Stamp) -> (r: Result<(Item, usize), ParseError>)
    requires
        start < lines@.len(),
        depth <= 1,
        now.wf(),
    ensures
        task_line_value(trim(lines@[start as int]@)) is Err <==> r is Err,
        r is Ok ==> task_line_value(trim(lines@[start as int]@)) == Ok::<(RunStatus, Seq<char>), ParseError>(
            (r->Ok_0.0.status, r->Ok_0.0.title@),
        ),
        r is Ok ==> start < r->Ok_0.1 <= lines@.len(),
        r is Ok ==> no_headers(lines@, start + 1, r->Ok_0.1 as int),
        r is Ok ==> r->Ok_0.0.wf(),
        r is Ok ==> r->Ok_0.0.schedule == schedule,
        r is Ok && depth == 1 ==> r->Ok_0.0.leaf_ok(),
        r is Ok ==> r->Ok_0.1 == fields_scan(line_views(lines@), start + 1, depth as int, empty_fields(), Seq::empty()).2,
        r is Ok ==> fields_match(r->Ok_0.0, fields_scan(line_views(lines@), start + 1, depth as int, empty_fields(), Seq::empty()).0, now),
        r is Ok ==> subs_match(r->Ok_0.0.subtasks@, fields_scan(line_views(lines@), start + 1, depth as int, empty_fields(), Seq::empty()).1, now),
    decreases 1 - depth, 1int,
{
    let nlines = lines.len();
    let first = trimmed(&lines[start]);
    let (status, title) = match task_line_of_chars(&first) {
        Ok(v) => v,
        Err(e) => return Err(e),
    };
    let mut estimate: i64 = 0;
    let mut elapsed: i64 = 0;
    let mut notes = String::new();
    let mut tags: Vec<String> = Vec::new();
    let mut created: Option<Stamp> = None;
    let mut completed: Option<Stamp> = None;
    let mut history: Vec<StateEvent> = Vec::new();
    let mut subtasks: Vec<Item> = Vec::new();
    let mut i = start + 1;
    let ghost ls = line_views(lines@);
    let ghost mut gsubs: Seq<SubView> = Seq::empty();
    assert(views(tags@) =~= Seq::<Seq<char>>::empty());
    assert(history@ =~= Seq::<StateEvent>::empty());
    assert((FieldsView { est: estimate as int, el: elapsed as int, tags: views(tags@), created, completed, history: history@, notes: notes@ }) == empty_fields());
    while i < lines.len()
        invariant
            ls == line_views(lines@),
            fields_scan(ls, start + 1, depth as int, empty_fields(), Seq::empty()) == fields_scan(
                ls,
                i as int,
                depth as int,
                FieldsView { est: estimate as int, el: elapsed as int, tags: views(tags@), created, completed, history: history@, notes: notes@ },
                gsubs,
            ),
            subs_match(subtasks@, gsubs, now),
            start < i <= lines@.len(),
            depth <= 1,
            now.wf(),
            no_headers(lines@, start + 1, i as int),
            -4000000000000000 < estimate < 4000000000000000,
            -4000000000000000 < elapsed < 4000000000000000,
            created is Some ==> created->0.wf(),
            completed is Some ==> completed->0.wf(),
            history_ok(history@),
            forall|k: int| 0 <= k < subtasks@.len() ==> (#[trigger] subtasks@[k]).leaf_ok(),
            depth == 1 ==> subtasks@.len() == 0,
        ensures
            start < i <= lines@.len(),
            no_headers(lines@, start + 1, i as int),
            -4000000000000000 < estimate < 4000000000000000,
            -4000000000000000 < elapsed < 4000000000000000,
            created is Some ==> created->0.wf(),
            completed is Some ==> completed->0.wf(),
            history_ok(history@),
            forall|k: int| 0 <= k < subtasks@.len() ==> (#[trigger] subtasks@[k]).leaf_ok(),
            depth == 1 ==> subtasks@.len() == 0,
            fields_scan(ls, start + 1, depth as int, empty_fields(), Seq::empty()) == (
                FieldsView { est: estimate as int, el: elapsed as int, tags: views(tags@), created, completed, history: history@, notes: notes@ },
                gsubs,
                i as int,
            ),
            subs_match(subtasks@, gsubs, now),
        decreases lines@.len() - i,
    {
        assert(ls[i as int] == lines@[i as int]@);
        let t = trimmed(&lines[i]);
        if section_of(&t).is_some() || has_prefix(&t, "- [") {
            break;
        }
        if has_prefix(&t, "est:") {
            match duration_of_chars(&field_rest(&t, "est:")) {
                Some(v) => estimate = v,
                None => estimate = 0,
            }
            i = i + 1;
        } else if has_prefix(&t, "elapsed:") {
            match duration_of_chars(&field_rest(&t, "elapsed:")) {
                Some(v) => elapsed = v,
                None => elapsed = 0,
            }
            i = i + 1;
        } else if has_prefix(&t, "notes:") {
            let (n, next) = parse_notes(lines, i + 1, depth);
            notes = n;
            i = next;
        } else if has_prefix(&t, "tags:") {
            tags = tags_of_chars(&field_rest(&t, "tags:"));
            i = i + 1;
        } else if has_prefix(&t, "created:") {
            created = Stamp::parse(string_of(&field_rest(&t, "created:")).as_str());
            i = i + 1;
        } else if has_prefix(&t, "completed:") {
            completed = Stamp::parse(string_of(&field_rest(&t, "completed:")).as_str());
            i = i + 1;
        } else if has_prefix(&t, "history:") {
            let (h, next) = parse_history(lines, i + 1, depth);
            history = h;
            i = next;
        } else if depth == 0 && has_prefix(&t, "subtasks:") {
            let (st, next) = parse_subtasks(lines, i + 1, schedule, now);
            proof {
                gsubs = subs_scan(ls, i + 1, Seq::empty()).0;
            }
            subtasks = st;
            i = next;
        } else {
            i = i + 1;
        }
    }
    let mut item = Item::new(string_of(&title), estimate, schedule, now);
    item.status = status;
    item.track.elapsed = elapsed;
    item.notes = notes;
    item.tags = tags;
    match created {
        Some(c) => item.created_at = c,
        None => {},
    }
    item.completed_at = completed;
    if history.len() > 0 {
        item.state_history = history;
    }
    item.subtasks = subtasks;
    Ok((item, i))
}

/// Parse a daily file into its active, done and archived items. Records sit
/// under `## ACTIVE`, `## DONE` or `## ARCHIVED` (active when no header came
/// yet); a record that cannot be read is skipped and reading goes on at the
/// next line. The lists are exactly the records `daily_scan` finds, in order:
/// status, title, estimate and elapsed (a malformed duration reads as 0),
/// notes, tags, creation (default `now`), completion, history (unreadable or
/// out-of-order entries dropped; an initial Idle event at `now` when none) and
/// subtasks with the same fields. Only the fresh identifiers are not fixed.
pub fn parse_daily_file(content: &str, now: Stamp) -> (r: Result<(Vec<Item>, Vec<Item>, Vec<Item>), ParseError>)
    requires
        now.wf(),
    ensures
        r is Ok,
        forall|k: int| 0 <= k < r->Ok_0.0@.len() ==> (#[trigger] r->Ok_0.0@[k]).wf(),
        forall|k: int| 0 <= k < r->Ok_0.1@.len() ==> (#[trigger] r->Ok_0.1@[k]).wf(),
        forall|k: int| 0 <= k < r->Ok_0.2@.len() ==> (#[trigger] r->Ok_0.2@[k]).wf(),
        tops_match(r->Ok_0.0@, daily_scan(lines_of(content@), 0, Section::Active, Seq::empty(), Seq::empty(), Seq::empty()).0, now),
        tops_match(r->Ok_0.1@, daily_scan(lines_of(content@), 0, Section::Active, Seq::empty(), Seq::empty(), Seq::empty()).1, now),
        tops_match(r->Ok_0.2@, daily_scan(lines_of(content@), 0, Section::Active, Seq::empty(), Seq::empty(), Seq::empty()).2, now),
        forall|k: int| 0 <= k < r->Ok_0.0@.len() ==> read_in(lines_of(content@), #[trigger] r->Ok_0.0@[k], Section::Active),
        forall|k: int| 0 <= k < r->Ok_0.1@.len() ==> read_in(lines_of(content@), #[trigger] r->Ok_0.1@[k], Section::Done),
        forall|k: int| 0 <= k < r->Ok_0.2@.len() ==> read_in(lines_of(content@), #[trigger] r->Ok_0.2@[k], Section::Archived),
{
    let cs = chars_of(content);
    let lines = split_lines(&cs);
    let ghost ls = lines_of(content@);
    let mut active: Vec<Item> = Vec::new();
    let mut done: Vec<Item> = Vec::new();
    let mut archived: Vec<Item> = Vec::new();
    let mut section = Section::Active;
    let mut i: usize = 0;
    let ghost mut wa: Seq<int> = Seq::empty();
    let ghost mut wd: Seq<int> = Seq::empty();
    let ghost mut wr: Seq<int> = Seq::empty();
    let ghost mut ga: Seq<TopView> = Seq::empty();
    let ghost mut gd: Seq<TopView> = Seq::empty();
    let ghost mut gr: Seq<TopView> = Seq::empty();
    assert(line_views(lines@) =~= ls);
    while i < lines.len()
        invariant
            line_views(lines@) == ls,
            daily_scan(ls, 0, Section::Active, Seq::empty(), Seq::empty(), Seq::empty()) == daily_scan(ls, i as int, section, ga, gd, gr),
            tops_match(active@, ga, now),
            tops_match(done@, gd, now),
            tops_match(archived@, gr, now),
            i <= lines@.len(),
            now.wf(),
            ls == lines_of(content@),
            lines@.len() == ls.len(),
            forall|k: int| 0 <= k < lines@.len() ==> (#[trigger] lines@[k])@ == ls[k],
            section == section_at(ls, i as nat),
            forall|k: int| 0 <= k < active@.len() ==> (#[trigger] active@[k]).wf(),
            forall|k: int| 0 <= k < done@.len() ==> (#[trigger] done@[k]).wf(),
            forall|k: int| 0 <= k < archived@.len() ==> (#[trigger] archived@[k]).wf(),
            wa.len() == active@.len(),
            wd.len() == done@.len(),
            wr.len() == archived@.len(),
            forall|k: int| 0 <= k < active@.len() ==> read_at(ls, wa[k], #[trigger] active@[k], Section::Active),
            forall|k: int| 0 <= k < done@.len() ==> read_at(ls, wd[k], #[trigger] done@[k], Section::Done),
            forall|k: int| 0 <= k < archived@.len() ==> read_at(ls, wr[k], #[trigger] archived@[k], Section::Archived),
        decreases lines@.len() - i,
    {
        let t = trimmed(&lines[i]);
        proof {
            assert(lines@[i as int]@ == ls[i as int]);
        }
        match section_of(&t) {
            Some(sec) => {
                section = sec;
                i = i + 1;
            },
            None => {
                proof {
                    assert(!is_section_header(trim(ls[i as int])));
                    assert(section_at(ls, (i + 1) as nat) == section_at(ls, i as nat));
                }
                if has_prefix(&t, "- [") {
                    match parse_record(&lines, i, 0, ScheduleDay::Today, now) {
                        Ok((item, next)) => {
                            let ghost a0 = active@;
                            let ghost d0 = done@;
                            let ghost r0 = archived@;
                            let ghost it = item;
                            let ghost tv = top_at(ls, i as int, task_line_value(trim(ls[i as int]))->Ok_0);
                            proof {
                                assert(top_match(it, tv, now));
                                assert(read_at(ls, i as int, it, section));
                                assert forall|k: int| (i + 1) <= k < next implies !is_section_header(trim(#[trigger] ls[k])) by {
                                    assert(lines@[k]@ == ls[k]);
                                    assert(!is_section_header(trim(lines@[k]@)));
                                }
                                lemma_section_unchanged(ls, (i + 1) as nat, next as nat);
                            }
                            match section {
                                Section::Active => {
                                    let ghost v0 = active@;
                                    active.push(item);
                                    proof {
                                        ga = ga.push(tv);
                                        assert forall|k: int| 0 <= k < active@.len() implies top_match(#[trigger] active@[k], ga[k], now) by {
                                            if k < v0.len() { assert(active@[k] == v0[k]); }
                                        }
                                        wa = wa.push(i as int);
                                        assert forall|k: int| 0 <= k < active@.len() implies (#[trigger] active@[k]).wf()
                                            && read_at(ls, wa[k], active@[k], Section::Active) by {
                                            if k < a0.len() { assert(active@[k] == a0[k]); } else { assert(active@[k] == it); }
                                        }
                                    }
                                },
                                Section::Done => {
                                    let ghost v0 = done@;
                                    done.push(item);
                                    proof {
                                        gd = gd.push(tv);
                                        assert forall|k: int| 0 <= k < done@.len() implies top_match(#[trigger] done@[k], gd[k], now) by {
                                            if k < v0.len() { assert(done@[k] == v0[k]); }
                                        }
                                        wd = wd.push(i as int);
                                        assert forall|k: int| 0 <= k < done@.len() implies (#[trigger] done@[k]).wf()
                                            && read_at(ls, wd[k], done@[k], Section::Done) by {
                                            if k < d0.len() { assert(done@[k] == d0[k]); } else { assert(done@[k] == it); }
                                        }
                                    }
                                },
                                Section::Archived => {
                                    let ghost v0 = archived@;
                                    archived.push(item);
                                    proof {
                                        gr = gr.push(tv);
                                        assert forall|k: int| 0 <= k < archived@.len() implies top_match(#[trigger] archived@[k], gr[k], now) by {
                                            if k < v0.len() { assert(archived@[k] == v0[k]); }
                                        }
                                        wr = wr.push(i as int);
                                        assert forall|k: int| 0 <= k < archived@.len() implies (#[trigger] archived@[k]).wf()
                                            && read_at(ls, wr[k], archived@[k], Section::Archived) by {
                                            if k < r0.len() { assert(archived@[k] == r0[k]); } else { assert(archived@[k] == it); }
                                        }
                                    }
                                },
                            }
                            i = next;
                        },
                        Err(_) => {
                            i = i + 1;
                        },
                    }
                } else {
                    i = i + 1;
                }
            },
        }
    }
    proof {
        assert forall|k: int| 0 <= k < active@.len() implies read_in(ls, #[trigger] active@[k], Section::Active) by {
            assert(read_at(ls, wa[k], active@[k], Section::Active));
        }
        assert forall|k: int| 0 <= k < done@.len() implies read_in(ls, #[trigger] done@[k], Section::Done) by {
            assert(read_at(ls, wd[k], done@[k], Section::Done));
        }
        assert forall|k: int| 0 <= k < archived@.len() implies read_in(ls, #[trigger] archived@[k], Section::Archived) by {
            assert(read_at(ls, wr[k], archived@[k], Section::Archived));
        }
    }
    Ok((active, done, archived))
}

/// Parse a single-list file of the older layout (`today.md`/`tomorrow.md`):
/// lines starting with `#` are headers; every record is read with the given
/// schedule, and one that cannot be read is skipped.
pub fn parse_markdown(content: &str, schedule: ScheduleDay, now: Stamp) -> (r: Result<Vec<Item>, ParseError>)
    requires
        now.wf(),
    ensures
        r is Ok,
        forall|k: int| 0 <= k < r->Ok_0@.len() ==> (#[trigger] r->Ok_0@[k]).wf() && r->Ok_0@[k].schedule == schedule,
        tops_match(r->Ok_0@, markdown_scan(lines_of(content@), 0, Seq::empty()), now),
{
    let cs = chars_of(content);
    let lines = split_lines(&cs);
    let ghost ls = lines_of(content@);
    let mut items: Vec<Item> = Vec::new();
    let mut i: usize = 0;
    let ghost mut acc: Seq<TopView> = Seq::empty();
    assert(line_views(lines@) =~= ls);
    while i < lines.len()
        invariant
            line_views(lines@) == ls,
            ls.len() == lines@.len(),
            markdown_scan(ls, 0, Seq::empty()) == markdown_scan(ls, i as int, acc),
            tops_match(items@, acc, now),
            i <= lines@.len(),
            now.wf(),
            forall|k: int| 0 <= k < items@.len() ==> (#[trigger] items@[k]).wf() && items@[k].schedule == schedule,
        decreases lines@.len() - i,
    {
        assert(ls[i as int] == lines@[i as int]@);
        let t = trimmed(&lines[i]);
        if t.len() == 0 || t[0] == '#' {
            i = i + 1;
        } else if has_prefix(&t, "- [") {
            match parse_record(&lines, i, 0, schedule, now) {
                Ok((item, next)) => {
                    let ghost a0 = items@;
                    let ghost tv = top_at(ls, i as int, task_line_value(trim(ls[i as int]))->Ok_0);
                    items.push(item);
                    proof {
                        acc = acc.push(tv);
                        assert forall|k: int| 0 <= k < items@.len() implies top_match(#[trigger] items@[k], acc[k], now) by {
                            if k < a0.len() { assert(items@[k] == a0[k]); }
                        }
                        assert forall|k: int| 0 <= k < items@.len() implies (#[trigger] items@[k]).wf() && items@[k].schedule == schedule by {
                            if k < a0.len() { assert(items@[k] == a0[k]); }
                        }
                    }
                    i = next;
                },
                Err(_) => {
                    i = i + 1;
                },
            }
        } else {
            i = i + 1;
        }
    }
    Ok(items)
}

/// The single-list file of the older layout.
pub open spec fn markdown_text(items: Seq<Item>, schedule: ScheduleDay, date: Stamp, now: Stamp) -> Seq<char> {
    (if schedule == ScheduleDay::Today { "# Today ("@ } else { "# Tomorrow ("@ })
        + crate::clock::ymd_text(date.secs as int, date.offset as int) + ")\n\n"@
        + items_text(items, items.len(), true, false, now)
}

/// Serialize a list in the older single-list layout; only active items are written.
pub fn serialize_to_markdown(items: &[Item], schedule: ScheduleDay, date: Stamp, now: Stamp) -> (r: String)
    requires
        forall|k: int| 0 <= k < items@.len() ==> (#[trigger] items@[k]).wf(),
        date.wf(),
        now.wf(),
    ensures
        r@ == markdown_text(items@, schedule, date, now),
{
    let mut out = String::new();
    match schedule {
        ScheduleDay::Today => push_text(&mut out, "# Today ("),
        ScheduleDay::Tomorrow => push_text(&mut out, "# Tomorrow ("),
    }
    let day = date.ymd();
    push_text(&mut out, day.as_str());
    push_text(&mut out, ")\n\n");
    push_items(&mut out, items, true, false, now);
    out
}

} // verus!
