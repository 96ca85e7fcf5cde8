//! The preprocessor for the indentation syntax, in which
//!
//! ```text
//! define : square x
//!   * x x
//! ```
//!
//! stands for `(define (square x) (* x x))`.

use crate::parser::{blank, is_blank, lemma_run_len_bound, run_len, Stop};
use crate::text::{chars_of, string_of};
use vstd::prelude::*;

verus! {

/// What the first pass is reading.
pub enum Mode {
    /// Ordinary text.
    Plain,
    /// A comment, which lasts to the end of the line.
    Comment,
    /// What follows a colon, which lasts to the end of the line.
    Colon,
}

/// What the first pass makes of `s` when it starts in `mode`: a comment is
/// dropped but for its line feed; a colon becomes an opening parenthesis,
/// and the line feed that ends its line gets a closing one before it.
pub open spec fn strip(s: Seq<char>, mode: Mode) -> Seq<char>
    decreases s.len(),
{
    if s.len() == 0 {
        Seq::empty()
    } else {
        let c = s[0];
        let rest = s.subrange(1, s.len() as int);
        match mode {
            Mode::Plain => if c == ';' {
                strip(rest, Mode::Comment)
            } else if c == ':' {
                seq!['('] + strip(rest, Mode::Colon)
            } else {
                seq![c] + strip(rest, Mode::Plain)
            },
            Mode::Comment => if c == '\n' {
                seq!['\n'] + strip(rest, Mode::Plain)
            } else {
                strip(rest, Mode::Comment)
            },
            Mode::Colon => if c == '\n' {
                seq![')', '\n'] + strip(rest, Mode::Plain)
            } else {
                seq![c] + strip(rest, Mode::Colon)
            },
        }
    }
}

/// The first pass: strips comments and turns each colon into a pair of
/// parentheses around the rest of its line.
pub fn first_pass(s: String) -> (r: String)
    ensures
        r@ == strip(s@, Mode::Plain),
{
    let chars = chars_of(s.as_str());
    let mut out: Vec<char> = Vec::new();
    let mut mode = Mode::Plain;
    let mut i: usize = 0;
    assert(chars@.subrange(0, chars@.len() as int) =~= chars@);
    while i < chars.len()
        invariant
            i <= chars.len(),
            out@ + strip(chars@.subrange(i as int, chars@.len() as int), mode) == strip(
                chars@,
                Mode::Plain,
            ),
        decreases chars.len() - i,
    {
        let c = chars[i];
        let ghost cur = chars@.subrange(i as int, chars@.len() as int);
        let ghost before = out@;
        proof {
            assert(cur[0] == c);
            assert(cur.subrange(1, cur.len() as int) =~= chars@.subrange(
                i as int + 1,
                chars@.len() as int,
            ));
        }
        let ghost rest = chars@.subrange(i as int + 1, chars@.len() as int);
        match mode {
            Mode::Plain => {
                if c == ';' {
                    mode = Mode::Comment;
                } else if c == ':' {
                    out.push('(');
                    mode = Mode::Colon;
                    assert(out@ + strip(rest, mode) =~= before + (seq!['('] + strip(rest, mode)));
                } else {
                    out.push(c);
                    assert(out@ + strip(rest, mode) =~= before + (seq![c] + strip(rest, mode)));
                }
            },
            Mode::Comment => {
                if c == '\n' {
                    out.push(c);
                    mode = Mode::Plain;
                    assert(out@ + strip(rest, mode) =~= before + (seq!['\n'] + strip(rest, mode)));
                }
            },
            Mode::Colon => {
                if c == '\n' {
                    out.push(')');
                    out.push(c);
                    mode = Mode::Plain;
                    assert(out@ + strip(rest, mode) =~= before + (seq![')', '\n'] + strip(
                        rest,
                        mode,
                    )));
                } else {
                    out.push(c);
                    assert(out@ + strip(rest, mode) =~= before + (seq![c] + strip(rest, mode)));
                }
            },
        }
        i += 1;
    }
    assert(chars@.subrange(i as int, chars@.len() as int) =~= Seq::empty());
    assert(out@ =~= strip(chars@, Mode::Plain));
    string_of(&out)
}

/// The lines of `s`: what stands between its line feeds.
pub open spec fn lines_of(s: Seq<char>) -> Seq<Seq<char>>
    decreases s.len(),
{
    if s.len() == 0 {
        seq![Seq::empty()]
    } else {
        let before = lines_of(s.drop_last());
        if s.last() == '\n' {
            before.push(Seq::empty())
        } else {
            before.drop_last().push(before.last().push(s.last()))
        }
    }
}

/// `s` without the white space at its end.
pub open spec fn trim_end(s: Seq<char>) -> Seq<char>
    decreases s.len(),
{
    if s.len() > 0 && blank(s.last()) {
        trim_end(s.drop_last())
    } else {
        s
    }
}

/// How many characters of white space `s` begins with.
pub open spec fn indent_of(s: Seq<char>) -> nat {
    run_len(s, Stop::NonBlank)
}

/// `s` without the white space at its start and at its end.
pub open spec fn trim(s: Seq<char>) -> Seq<char> {
    trim_end(s.subrange(indent_of(s) as int, s.len() as int))
}

/// A line that is not blank: its text without the white space around it,
/// and how far it is indented.
pub struct Entry {
    pub text: Vec<char>,
    pub indent: usize,
}

/// The view of an [`Entry`].
pub struct EntryView {
    pub text: Seq<char>,
    pub indent: nat,
}

impl View for Entry {
    type V = EntryView;

    open spec fn view(&self) -> EntryView {
        EntryView { text: self.text@, indent: self.indent as nat }
    }
}

/// The entries of the given lines: one for each line that is not blank.
pub open spec fn entries_of(lines: Seq<Seq<char>>) -> Seq<EntryView>
    decreases lines.len(),
{
    if lines.len() == 0 {
        Seq::empty()
    } else {
        let before = entries_of(lines.drop_last());
        let text = trim(lines.last());
        if text.len() == 0 {
            before
        } else {
            before.push(EntryView { text, indent: indent_of(lines.last()) })
        }
    }
}

/// The text that a line contributes: a line that begins with a dot
/// continues the form before it and gives what follows the dot, trimmed;
/// any other line opens a form and gives ` (` and itself.
pub open spec fn opening(text: Seq<char>) -> Seq<char> {
    if text.len() > 0 && text[0] == '.' {
        trim(text.subrange(1, text.len() as int))
    } else {
        seq![' ', '('] + text
    }
}

/// Whether a line opens a form.
pub open spec fn opens(text: Seq<char>) -> bool {
    !(text.len() > 0 && text[0] == '.')
}

/// The open forms that stay open before a line indented by `next`: those
/// indented less. They are looked at from the last to the first and kept in
/// that order.
pub open spec fn kept(layers: Seq<nat>, next: nat) -> Seq<nat>
    decreases layers.len(),
{
    if layers.len() == 0 {
        Seq::empty()
    } else if layers.last() >= next {
        kept(layers.drop_last(), next)
    } else {
        seq![layers.last()] + kept(layers.drop_last(), next)
    }
}

/// How many open forms are closed before a line indented by `next`: those
/// indented as much or more.
pub open spec fn closed(layers: Seq<nat>, next: nat) -> nat
    decreases layers.len(),
{
    if layers.len() == 0 {
        0
    } else if layers.last() >= next {
        1 + closed(layers.drop_last(), next)
    } else {
        closed(layers.drop_last(), next)
    }
}

/// `n` closing parentheses.
pub open spec fn closers(n: nat) -> Seq<char> {
    Seq::new(n, |i: int| ')')
}

/// What the second pass writes for the entries from position `i` on, with
/// the forms `layers` open.
pub open spec fn layout(entries: Seq<EntryView>, i: nat, layers: Seq<nat>) -> Seq<char>
    decreases entries.len() - i,
{
    if i >= entries.len() {
        Seq::empty()
    } else {
        let e = entries[i as int];
        let open = if opens(e.text) {
            layers.push(e.indent)
        } else {
            layers
        };
        let next = if i + 1 == entries.len() {
            0
        } else {
            entries[i as int + 1].indent
        };
        opening(e.text) + closers(closed(open, next)) + layout(entries, i + 1, kept(open, next))
    }
}

/// What the second pass makes of `s`: each line that is not blank opens a
/// form, unless it begins with a dot; a form is closed before the next line
/// that is indented no more than it, and at the end.
pub open spec fn indented(s: Seq<char>) -> Seq<char> {
    layout(entries_of(lines_of(s)), 0, Seq::empty())
}

/// Splits text into its lines.
pub fn split_lines(chars: &Vec<char>) -> (lines: Vec<Vec<char>>)
    ensures
        lines@.map_values(|l: Vec<char>| l@) == lines_of(chars@),
{
    let mut lines: Vec<Vec<char>> = Vec::new();
    let mut cur: Vec<char> = Vec::new();
    let mut i: usize = 0;
    assert(chars@.subrange(0, 0) =~= Seq::empty());
    assert(lines@.map_values(|l: Vec<char>| l@).push(cur@) =~= seq![Seq::<char>::empty()]);
    while i < chars.len()
        invariant
            i <= chars.len(),
            lines@.map_values(|l: Vec<char>| l@).push(cur@) == lines_of(
                chars@.subrange(0, i as int),
            ),
        decreases chars.len() - i,
    {
        let c = chars[i];
        let ghost prefix = chars@.subrange(0, i as int + 1);
        let ghost done = lines@.map_values(|l: Vec<char>| l@);
        let ghost line = cur@;
        proof {
            assert(prefix.drop_last() =~= chars@.subrange(0, i as int));
            assert(prefix.last() == c);
            assert(done.push(line).drop_last() =~= done);
        }
        if c == '\n' {
            lines.push(cur);
            cur = Vec::new();
            assert(lines@.map_values(|l: Vec<char>| l@) =~= done.push(line));
            assert(lines@.map_values(|l: Vec<char>| l@).push(cur@) =~= done.push(line).push(
                Seq::empty(),
            ));
        } else {
            cur.push(c);
            assert(lines@.map_values(|l: Vec<char>| l@).push(cur@) =~= done.push(line.push(c)));
        }
        i += 1;
    }
    assert(chars@.subrange(0, i as int) =~= chars@);
    let ghost done = lines@.map_values(|l: Vec<char>| l@);
    let ghost line = cur@;
    lines.push(cur);
    assert(lines@.map_values(|l: Vec<char>| l@) =~= done.push(line));
    lines
}

/// Counts the white space that a line begins with.
pub fn count_indent(line: &Vec<char>) -> (n: usize)
    ensures
        n == indent_of(line@),
{
    let mut i: usize = 0;
    assert(line@.subrange(0, line@.len() as int) =~= line@);
    while i < line.len() && is_blank(line[i])
        invariant
            i <= line.len(),
            indent_of(line@) == i + run_len(
                line@.subrange(i as int, line@.len() as int),
                Stop::NonBlank,
            ),
        decreases line.len() - i,
    {
        let ghost cur = line@.subrange(i as int, line@.len() as int);
        assert(cur[0] == line@[i as int]);
        assert(cur.subrange(1, cur.len() as int) =~= line@.subrange(
            i as int + 1,
            line@.len() as int,
        ));
        i += 1;
    }
    proof {
        let ghost cur = line@.subrange(i as int, line@.len() as int);
        if i < line.len() {
            assert(cur[0] == line@[i as int]);
        }
    }
    i
}

/// A line without the white space around it.
pub fn trimmed(line: &Vec<char>) -> (r: Vec<char>)
    ensures
        r@ == trim(line@),
{
    let start = count_indent(line);
    proof {
        lemma_run_len_bound(line@, Stop::NonBlank);
    }
    let mut end = line.len();
    let ghost body = line@.subrange(start as int, line@.len() as int);
    while end > start && is_blank(line[end - 1])
        invariant
            start <= end <= line.len(),
            body == line@.subrange(start as int, line@.len() as int),
            trim_end(body) == trim_end(line@.subrange(start as int, end as int)),
        decreases end,
    {
        let ghost cur = line@.subrange(start as int, end as int);
        assert(cur.last() == line@[end as int - 1]);
        assert(cur.drop_last() =~= line@.subrange(start as int, end as int - 1));
        end -= 1;
    }
    proof {
        let ghost cur = line@.subrange(start as int, end as int);
        if end > start {
            assert(cur.last() == line@[end as int - 1]);
        }
        assert(trim_end(cur) == cur);
    }
    let mut r: Vec<char> = Vec::new();
    let mut i = start;
    while i < end
        invariant
            start <= i <= end <= line.len(),
            r@ == line@.subrange(start as int, i as int),
        decreases end - i,
    {
        r.push(line[i]);
        assert(r@ =~= line@.subrange(start as int, i as int + 1));
        i += 1;
    }
    r
}

/// The entries of the lines.
pub fn read_entries(lines: &Vec<Vec<char>>) -> (entries: Vec<Entry>)
    ensures
        entries@.map_values(|e: Entry| e@) == entries_of(lines@.map_values(|l: Vec<char>| l@)),
{
    let mut entries: Vec<Entry> = Vec::new();
    let ghost all = lines@.map_values(|l: Vec<char>| l@);
    let mut i: usize = 0;
    assert(all.subrange(0, 0) =~= Seq::empty());
    assert(entries@.map_values(|e: Entry| e@) =~= Seq::empty());
    while i < lines.len()
        invariant
            i <= lines.len(),
            all == lines@.map_values(|l: Vec<char>| l@),
            entries@.map_values(|e: Entry| e@) == entries_of(all.subrange(0, i as int)),
        decreases lines.len() - i,
    {
        let ghost prefix = all.subrange(0, i as int + 1);
        let ghost done = entries@.map_values(|e: Entry| e@);
        proof {
            assert(prefix.drop_last() =~= all.subrange(0, i as int));
            assert(prefix.last() == lines@[i as int]@);
        }
        let text = trimmed(&lines[i]);
        if text.len() > 0 {
            let indent = count_indent(&lines[i]);
            let entry = Entry { text, indent };
            let ghost ev = entry@;
            entries.push(entry);
            assert(entries@.map_values(|e: Entry| e@) =~= done.push(ev));
        }
        i += 1;
    }
    assert(all.subrange(0, i as int) =~= all);
    entries
}

/// The second pass: puts parentheses around the lines by their
/// indentation, as [`indented`] says.
pub fn second_pass(s: String) -> (r: String)
    ensures
        r@ == indented(s@),
{
    let chars = chars_of(s.as_str());
    let lines = split_lines(&chars);
    let entries = read_entries(&lines);
    let ghost ev = entries@.map_values(|e: Entry| e@);
    let mut out: Vec<char> = Vec::new();
    let mut layers: Vec<usize> = Vec::new();
    let mut i: usize = 0;
    assert(layers@.map_values(|n: usize| n as nat) =~= Seq::empty());
    assert(out@ + layout(ev, 0, Seq::empty()) =~= layout(ev, 0, Seq::empty()));
    while i < entries.len()
        invariant
            i <= entries.len(),
            ev == entries@.map_values(|e: Entry| e@),
            out@ + layout(ev, i as nat, layers@.map_values(|n: usize| n as nat)) == layout(
                ev,
                0,
                Seq::empty(),
            ),
        decreases entries.len() - i,
    {
        let ghost before = out@;
        let ghost old_layers = layers@.map_values(|n: usize| n as nat);
        let entry = &entries[i];
        assert(ev[i as int] == entry@);
        if entry.text.len() > 0 && entry.text[0] == '.' {
            let mut rest: Vec<char> = Vec::new();
            let mut k: usize = 1;
            while k < entry.text.len()
                invariant
                    1 <= k <= entry.text.len(),
                    rest@ == entry.text@.subrange(1, k as int),
                decreases entry.text.len() - k,
            {
                rest.push(entry.text[k]);
                assert(rest@ =~= entry.text@.subrange(1, k as int + 1));
                k += 1;
            }
            let t = trimmed(&rest);
            let mut j: usize = 0;
            while j < t.len()
                invariant
                    j <= t.len(),
                    out@ == before + t@.subrange(0, j as int),
                decreases t.len() - j,
            {
                out.push(t[j]);
                assert(out@ =~= before + t@.subrange(0, j as int + 1));
                j += 1;
            }
            assert(t@.subrange(0, t@.len() as int) =~= t@);
        } else {
            layers.push(entry.indent);
            assert(layers@.map_values(|n: usize| n as nat) =~= old_layers.push(
                entry.indent as nat,
            ));
            out.push(' ');
            out.push('(');
            let mut j: usize = 0;
            while j < entry.text.len()
                invariant
                    j <= entry.text.len(),
                    out@ == before + seq![' ', '('] + entry.text@.subrange(0, j as int),
                decreases entry.text.len() - j,
            {
                out.push(entry.text[j]);
                assert(out@ =~= before + seq![' ', '('] + entry.text@.subrange(0, j as int + 1));
                j += 1;
            }
            assert(entry.text@.subrange(0, entry.text@.len() as int) =~= entry.text@);
            assert(out@ =~= before + (seq![' ', '('] + entry.text@));
        }
        assert(out@ == before + opening(entry@.text));
        let next: usize = if i + 1 == entries.len() {
            0
        } else {
            entries[i + 1].indent
        };
        let ghost open = layers@.map_values(|n: usize| n as nat);
        let ghost mid = out@;
        let mut keep: Vec<usize> = Vec::new();
        let mut k = layers.len();
        let ghost mut count: nat = 0;
        assert(open.subrange(0, k as int) =~= open);
        while k > 0
            invariant
                k <= layers.len(),
                open == layers@.map_values(|n: usize| n as nat),
                out@ == mid + closers(count),
                closed(open, next as nat) == count + closed(open.subrange(0, k as int), next as nat),
                kept(open, next as nat) == keep@.map_values(|n: usize| n as nat) + kept(
                    open.subrange(0, k as int),
                    next as nat,
                ),
            decreases k,
        {
            let ghost cur = open.subrange(0, k as int);
            let ghost kv = keep@.map_values(|n: usize| n as nat);
            k -= 1;
            proof {
                assert(cur.last() == layers@[k as int] as nat);
                assert(cur.drop_last() =~= open.subrange(0, k as int));
            }
            if layers[k] >= next {
                out.push(')');
                proof {
                    assert(out@ =~= mid + closers(count + 1));
                    count = count + 1;
                }
            } else {
                keep.push(layers[k]);
                assert(keep@.map_values(|n: usize| n as nat) =~= kv.push(layers@[k as int] as nat));
                assert(keep@.map_values(|n: usize| n as nat) + kept(
                    open.subrange(0, k as int),
                    next as nat,
                ) =~= kv + (seq![cur.last()] + kept(cur.drop_last(), next as nat)));
            }
        }
        proof {
            assert(open.subrange(0, 0) =~= Seq::empty());
            assert(keep@.map_values(|n: usize| n as nat) =~= kept(open, next as nat));
            assert(out@ + layout(ev, (i + 1) as nat, kept(open, next as nat)) =~= before + (opening(
                entry@.text,
            ) + closers(closed(open, next as nat)) + layout(
                ev,
                (i + 1) as nat,
                kept(open, next as nat),
            )));
        }
        layers = keep;
        i += 1;
    }
    assert(out@ =~= layout(ev, 0, Seq::empty()));
    string_of(&out)
}

/// The second pass under its older name.
pub fn process(s: String) -> (r: String)
    ensures
        r@ == indented(s@),
{
    second_pass(s)
}

/// How often `c` occurs in `s`.
pub open spec fn occurrences(s: Seq<char>, c: char) -> nat
    decreases s.len(),
{
    if s.len() == 0 {
        0
    } else {
        occurrences(s.drop_last(), c) + if s.last() == c {
            1nat
        } else {
            0nat
        }
    }
}

/// How many more opening than closing parentheses `s` has.
pub open spec fn surplus(s: Seq<char>) -> int {
    occurrences(s, '(') - occurrences(s, ')')
}

/// What a line itself gives to the text: the line, or what follows its
/// dot.
pub open spec fn own_text(text: Seq<char>) -> Seq<char> {
    if opens(text) {
        text
    } else {
        trim(text.subrange(1, text.len() as int))
    }
}

/// The [`surplus`] of the lines from position `i` on, taken together.
pub open spec fn own_surplus(entries: Seq<EntryView>, i: nat) -> int
    decreases entries.len() - i,
{
    if i >= entries.len() {
        0
    } else {
        surplus(own_text(entries[i as int].text)) + own_surplus(entries, i + 1)
    }
}

/// The occurrences in a text that is put together are those of its parts.
proof fn lemma_occurrences_concat(a: Seq<char>, b: Seq<char>, c: char)
    ensures
        occurrences(a + b, c) == occurrences(a, c) + occurrences(b, c),
    decreases b.len(),
{
    if b.len() == 0 {
        assert(a + b =~= a);
    } else {
        assert((a + b).drop_last() =~= a + b.drop_last());
        lemma_occurrences_concat(a, b.drop_last(), c);
    }
}

/// Closing parentheses are closing parentheses, as many as asked for.
proof fn lemma_occurrences_closers(n: nat)
    ensures
        occurrences(closers(n), ')') == n,
        occurrences(closers(n), '(') == 0,
    decreases n,
{
    if n > 0 {
        assert(closers(n).drop_last() =~= closers((n - 1) as nat));
        lemma_occurrences_closers((n - 1) as nat);
    }
}

/// Every open form is either kept or closed.
proof fn lemma_kept_or_closed(layers: Seq<nat>, next: nat)
    ensures
        kept(layers, next).len() + closed(layers, next) == layers.len(),
        next == 0 ==> closed(layers, next) == layers.len(),
    decreases layers.len(),
{
    if layers.len() > 0 {
        lemma_kept_or_closed(layers.drop_last(), next);
    }
}

/// A line that opens a form gives one opening parenthesis more than it
/// holds itself.
proof fn lemma_opening_surplus(text: Seq<char>)
    ensures
        surplus(opening(text)) == surplus(own_text(text)) + if opens(text) {
            1int
        } else {
            0int
        },
{
    if opens(text) {
        let lead = seq![' ', '('];
        assert(lead.drop_last() =~= seq![' ']);
        assert(seq![' '].drop_last() =~= Seq::<char>::empty());
        reveal_with_fuel(occurrences, 3);
        assert(occurrences(lead, '(') == 1);
        assert(occurrences(lead, ')') == 0);
        lemma_occurrences_concat(lead, text, '(');
        lemma_occurrences_concat(lead, text, ')');
    }
}

/// What is written from a line on closes the forms that are open, and
/// otherwise has the surplus of the lines themselves.
proof fn lemma_layout_surplus(entries: Seq<EntryView>, i: nat, layers: Seq<nat>)
    requires
        i < entries.len() || layers.len() == 0,
    ensures
        surplus(layout(entries, i, layers)) == own_surplus(entries, i) - layers.len(),
    decreases entries.len() - i,
{
    if i < entries.len() {
        let e = entries[i as int];
        let open = if opens(e.text) {
            layers.push(e.indent)
        } else {
            layers
        };
        let next = if i + 1 == entries.len() {
            0
        } else {
            entries[i as int + 1].indent
        };
        let first = opening(e.text);
        let close = closers(closed(open, next));
        let rest = layout(entries, i + 1, kept(open, next));
        lemma_kept_or_closed(open, next);
        lemma_layout_surplus(entries, i + 1, kept(open, next));
        lemma_opening_surplus(e.text);
        lemma_occurrences_closers(closed(open, next));
        lemma_occurrences_concat(first, close, '(');
        lemma_occurrences_concat(first, close, ')');
        lemma_occurrences_concat(first + close, rest, '(');
        lemma_occurrences_concat(first + close, rest, ')');
    }
}

/// The second pass writes as many closing parentheses as opening ones:
/// what it gives has as many more opening than closing parentheses as the
/// lines themselves have, taken together; so lines that are balanced give a
/// balanced text.
pub proof fn law_second_pass_is_balanced(s: Seq<char>)
    ensures
        surplus(indented(s)) == own_surplus(entries_of(lines_of(s)), 0),
{
    lemma_layout_surplus(entries_of(lines_of(s)), 0, Seq::empty());
}

} // verus!
