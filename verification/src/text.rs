//! Splitting a text into lines, as the terminal animation shows it.

use vstd::prelude::*;

verus! {

/// `line` without one trailing carriage return, if it has one.
pub open spec fn strip_cr(line: Seq<char>) -> Seq<char> {
    if line.len() > 0 && line.last() == '\r' {
        line.drop_last()
    } else {
        line
    }
}

/// The lines of `rest`, when `partial` holds the characters already read of
/// the line that `rest` continues.
pub open spec fn lines_from(rest: Seq<char>, partial: Seq<char>) -> Seq<Seq<char>>
    decreases rest.len(),
{
    if rest.len() == 0 {
        if partial.len() == 0 {
            Seq::empty()
        } else {
            seq![partial]
        }
    } else if rest[0] == '\n' {
        seq![strip_cr(partial)] + lines_from(rest.drop_first(), Seq::empty())
    } else {
        lines_from(rest.drop_first(), partial.push(rest[0]))
    }
}

/// The lines of `text` as `str::lines` gives them: split at each `\n`, a
/// `\r` just before a `\n` dropped, and no empty line after a final `\n`.
pub open spec fn lines(text: Seq<char>) -> Seq<Seq<char>> {
    lines_from(text, Seq::empty())
}

/// The views of a sequence of string slices.
pub open spec fn views(v: Seq<&str>) -> Seq<Seq<char>> {
    v.map_values(|l: &str| l@)
}

/// Splits `text` into its lines, as `text.lines()` does.
pub fn text_lines<'a>(text: &'a str) -> (r: Vec<&'a str>)
    ensures
        views(r@) == lines(text@),
{
    let ghost s = text@;
    let len = text.unicode_len();
    let mut out: Vec<&'a str> = Vec::new();
    let mut start: usize = 0;
    let mut i: usize = 0;
    assert(s.skip(0) =~= s);
    assert(s.subrange(0, 0) =~= Seq::<char>::empty());
    assert(views(out@) + lines(s) =~= lines(s));
    while i < len
        invariant
            s == text@,
            len == s.len(),
            start <= i <= len,
            lines(s) == views(out@) + lines_from(s.skip(i as int), s.subrange(start as int, i as int)),
        decreases len - i,
    {
        let c = text.get_char(i);
        let ghost partial = s.subrange(start as int, i as int);
        let ghost rest = s.skip(i as int);
        assert(rest[0] == c);
        assert(rest.drop_first() =~= s.skip(i + 1));
        if c == '\n' {
            let mut end = i;
            if i > start && text.get_char(i - 1) == '\r' {
                end = i - 1;
            }
            let line = text.substring_char(start, end);
            assert(line@ =~= strip_cr(partial));
            let ghost before = out@;
            out.push(line);
            assert(views(out@) =~= views(before) + seq![strip_cr(partial)]);
            assert(s.subrange((i + 1) as int, (i + 1) as int) =~= Seq::<char>::empty());
            start = i + 1;
        } else {
            assert(partial.push(c) =~= s.subrange(start as int, i + 1));
        }
        i = i + 1;
    }
    let ghost partial = s.subrange(start as int, len as int);
    assert(s.skip(len as int) =~= Seq::<char>::empty());
    if start < len {
        let line = text.substring_char(start, len);
        let ghost before = out@;
        out.push(line);
        assert(views(out@) =~= views(before) + seq![partial]);
    } else {
        assert(views(out@) + Seq::<Seq<char>>::empty() =~= views(out@));
    }
    out
}

/// `line` holds no line feed.
pub open spec fn no_newline(line: Seq<char>) -> bool {
    forall|k: int| 0 <= k < line.len() ==> #[trigger] line[k] != '\n'
}

proof fn lemma_lines_from_no_newline(rest: Seq<char>, partial: Seq<char>)
    requires
        no_newline(partial),
    ensures
        forall|i: int|
            0 <= i < lines_from(rest, partial).len() ==> no_newline(
                #[trigger] lines_from(rest, partial)[i],
            ),
    decreases rest.len(),
{
    if rest.len() == 0 {
        if partial.len() > 0 {
            assert(lines_from(rest, partial) =~= seq![partial]);
            assert(lines_from(rest, partial)[0] == partial);
        }
    } else if rest[0] == '\n' {
        lemma_lines_from_no_newline(rest.drop_first(), Seq::empty());
        let head = seq![strip_cr(partial)];
        let tail = lines_from(rest.drop_first(), Seq::empty());
        assert(lines_from(rest, partial) == head + tail);
        assert(no_newline(strip_cr(partial)));
        assert((head + tail)[0] == strip_cr(partial));
        assert forall|i: int| 0 <= i < (head + tail).len() implies no_newline(
            #[trigger] (head + tail)[i],
        ) by {
            if i > 0 {
                assert((head + tail)[i] == tail[i - 1]);
            }
        }
    } else {
        assert(lines_from(rest, partial) == lines_from(rest.drop_first(), partial.push(rest[0])));
        lemma_lines_from_no_newline(rest.drop_first(), partial.push(rest[0]));
    }
}

/// No line holds a line feed.
pub proof fn lines_hold_no_newline(text: Seq<char>)
    ensures
        forall|i: int| 0 <= i < lines(text).len() ==> no_newline(#[trigger] lines(text)[i]),
{
    lemma_lines_from_no_newline(text, Seq::empty());
}

proof fn lemma_lines_from_final_lf(rest: Seq<char>, partial: Seq<char>)
    requires
        (partial + rest).len() > 0,
        (partial + rest).last() != '\n',
        (partial + rest).last() != '\r',
    ensures
        lines_from(rest.push('\n'), partial) == lines_from(rest, partial),
    decreases rest.len(),
{
    let r = rest.push('\n');
    if rest.len() > 0 {
        assert(r.drop_first() =~= rest.drop_first().push('\n'));
        assert(r[0] == rest[0]);
    }
    if rest.len() == 0 {
        assert(partial + rest =~= partial);
        assert(r.drop_first() =~= Seq::<char>::empty());
        assert(lines_from(Seq::<char>::empty(), Seq::<char>::empty()) =~= Seq::<Seq<char>>::empty());
        assert(strip_cr(partial) == partial);
        assert(lines_from(r, partial) =~= seq![partial]);
    } else if rest[0] == '\n' {
        assert((partial + rest).last() == rest.last());
        assert(Seq::<char>::empty() + rest.drop_first() =~= rest.drop_first());
        lemma_lines_from_final_lf(rest.drop_first(), Seq::empty());
    } else {
        assert(partial.push(rest[0]) + rest.drop_first() =~= partial + rest);
        lemma_lines_from_final_lf(rest.drop_first(), partial.push(rest[0]));
    }
}

/// A final line feed adds no line: a text that does not already end a line
/// has the same lines with one more `\n` at its end.
pub proof fn final_newline_adds_no_line(text: Seq<char>)
    requires
        text.len() > 0,
        text.last() != '\n',
        text.last() != '\r',
    ensures
        lines(text.push('\n')) == lines(text),
{
    assert(Seq::<char>::empty() + text =~= text);
    lemma_lines_from_final_lf(text, Seq::empty());
}

proof fn lemma_lines_from_final_crlf(rest: Seq<char>, partial: Seq<char>)
    requires
        (partial + rest).len() > 0,
        (partial + rest).last() != '\n',
    ensures
        lines_from(rest + seq!['\r', '\n'], partial) == lines_from(rest, partial),
    decreases rest.len(),
{
    let r = rest + seq!['\r', '\n'];
    if rest.len() == 0 {
        assert(partial + rest =~= partial);
        assert(r =~= seq!['\r', '\n']);
        assert(r.drop_first() =~= seq!['\n']);
        assert(seq!['\n'].drop_first() =~= Seq::<char>::empty());
        assert(strip_cr(partial.push('\r')) =~= partial);
        assert(lines_from(Seq::<char>::empty(), Seq::<char>::empty()) =~= Seq::<Seq<char>>::empty());
        assert(lines_from(seq!['\n'], partial.push('\r')) =~= seq![partial]);
    } else {
        assert(r.drop_first() =~= rest.drop_first() + seq!['\r', '\n']);
        assert(r[0] == rest[0]);
        if rest[0] == '\n' {
            assert((partial + rest).last() == rest.last());
            assert(Seq::<char>::empty() + rest.drop_first() =~= rest.drop_first());
            lemma_lines_from_final_crlf(rest.drop_first(), Seq::empty());
        } else {
            assert(partial.push(rest[0]) + rest.drop_first() =~= partial + rest);
            lemma_lines_from_final_crlf(rest.drop_first(), partial.push(rest[0]));
        }
    }
}

/// A final `\r\n` adds no line: a text that does not already end in `\n`
/// has the same lines with `\r\n` at its end.
pub proof fn final_crlf_adds_no_line(text: Seq<char>)
    requires
        text.len() > 0,
        text.last() != '\n',
    ensures
        lines(text + seq!['\r', '\n']) == lines(text),
{
    assert(Seq::<char>::empty() + text =~= text);
    lemma_lines_from_final_crlf(text, Seq::empty());
}

/// The number of line feeds in `s`.
pub open spec fn newline_count(s: Seq<char>) -> nat
    decreases s.len(),
{
    if s.len() == 0 {
        0
    } else {
        (if s[0] == '\n' { 1nat } else { 0nat }) + newline_count(s.drop_first())
    }
}

proof fn lemma_lines_from_concat(t: Seq<char>, u: Seq<char>, partial: Seq<char>)
    requires
        t.len() > 0,
        t.last() == '\n',
    ensures
        lines_from(t + u, partial) == lines_from(t, partial) + lines_from(u, Seq::empty()),
    decreases t.len(),
{
    let tu = t + u;
    assert(tu[0] == t[0]);
    assert(tu.drop_first() =~= t.drop_first() + u);
    if t[0] == '\n' {
        let head = seq![strip_cr(partial)];
        if t.len() == 1 {
            assert(t.drop_first() =~= Seq::<char>::empty());
            assert(t.drop_first() + u =~= u);
            assert(lines_from(Seq::<char>::empty(), Seq::<char>::empty()) =~= Seq::<Seq<char>>::empty());
            assert(lines_from(t, partial) =~= head);
        } else {
            assert(t.drop_first().last() == t.last());
            lemma_lines_from_concat(t.drop_first(), u, Seq::empty());
            assert(lines_from(tu, partial) == head + lines_from(t.drop_first() + u, Seq::empty()));
            assert(lines_from(t, partial) == head + lines_from(t.drop_first(), Seq::empty()));
            assert(head + (lines_from(t.drop_first(), Seq::empty()) + lines_from(u, Seq::empty()))
                =~= (head + lines_from(t.drop_first(), Seq::empty())) + lines_from(u, Seq::empty()));
        }
    } else {
        assert(t.len() > 1);
        assert(t.drop_first().last() == t.last());
        lemma_lines_from_concat(t.drop_first(), u, partial.push(t[0]));
    }
}

/// Lines distribute over concatenation after a line feed: the text after a
/// `\n` starts a fresh line.
pub proof fn lines_of_concat(t: Seq<char>, u: Seq<char>)
    requires
        t.len() > 0,
        t.last() == '\n',
    ensures
        lines(t + u) == lines(t) + lines(u),
{
    lemma_lines_from_concat(t, u, Seq::empty());
}

proof fn lemma_lines_from_count(rest: Seq<char>, partial: Seq<char>)
    requires
        no_newline(partial),
    ensures
        lines_from(rest, partial).len() == newline_count(rest) + (if (partial + rest).len() > 0
            && (partial + rest).last() != '\n' {
            1nat
        } else {
            0nat
        }),
    decreases rest.len(),
{
    if rest.len() == 0 {
        assert(partial + rest =~= partial);
        if partial.len() > 0 {
            assert(partial[partial.len() - 1] != '\n');
        }
    } else if rest[0] == '\n' {
        lemma_lines_from_count(rest.drop_first(), Seq::empty());
        assert(Seq::<char>::empty() + rest.drop_first() =~= rest.drop_first());
        assert((partial + rest).last() == rest.last());
        if rest.len() > 1 {
            assert(rest.drop_first().last() == rest.last());
        }
    } else {
        assert(partial.push(rest[0]) + rest.drop_first() =~= partial + rest);
        assert(no_newline(partial.push(rest[0]))) by {
            assert forall|k: int| 0 <= k < partial.push(rest[0]).len() implies
                #[trigger] partial.push(rest[0])[k] != '\n' by {
                if k < partial.len() {
                    assert(partial.push(rest[0])[k] == partial[k]);
                }
            }
        }
        lemma_lines_from_count(rest.drop_first(), partial.push(rest[0]));
    }
}

/// A text has one line per line feed, and one more if it is non-empty and
/// does not end with a line feed.
pub proof fn line_count(text: Seq<char>)
    ensures
        lines(text).len() == newline_count(text) + (if text.len() > 0 && text.last() != '\n' {
            1nat
        } else {
            0nat
        }),
{
    assert(Seq::<char>::empty() + text =~= text);
    lemma_lines_from_count(text, Seq::empty());
}

proof fn lemma_lines_from_skip_line(l: Seq<char>, r: Seq<char>, partial: Seq<char>)
    requires
        no_newline(l),
    ensures
        lines_from(l + r, partial) == lines_from(r, partial + l),
    decreases l.len(),
{
    if l.len() == 0 {
        assert(l + r =~= r);
        assert(partial + l =~= partial);
    } else {
        let lr = l + r;
        assert(lr[0] == l[0]);
        assert(l[0] != '\n');
        assert(lr.drop_first() =~= l.drop_first() + r);
        assert(partial.push(l[0]) + l.drop_first() =~= partial + l);
        assert(no_newline(l.drop_first())) by {
            assert forall|k: int| 0 <= k < l.drop_first().len() implies
                #[trigger] l.drop_first()[k] != '\n' by {
                assert(l.drop_first()[k] == l[k + 1]);
            }
        }
        lemma_lines_from_skip_line(l.drop_first(), r, partial.push(l[0]));
    }
}

/// A text without line feeds is one line, or none if it is empty.
pub proof fn single_line(l: Seq<char>)
    requires
        no_newline(l),
    ensures
        l.len() == 0 ==> lines(l) == Seq::<Seq<char>>::empty(),
        l.len() > 0 ==> lines(l) == seq![l],
{
    lemma_lines_from_skip_line(l, Seq::empty(), Seq::empty());
    assert(l + Seq::<char>::empty() =~= l);
    assert(Seq::<char>::empty() + l =~= l);
}

/// A line ended by `\r\n` is that line without its ending; a line ended by
/// `\n` alone is that line without its ending, unless it ends in `\r`.
pub proof fn terminated_line(l: Seq<char>)
    requires
        no_newline(l),
    ensures
        lines(l + seq!['\r', '\n']) == seq![l],
        (l.len() == 0 || l.last() != '\r') ==> lines(l.push('\n')) == seq![l],
{
    assert(lines_from(Seq::<char>::empty(), Seq::<char>::empty()) =~= Seq::<Seq<char>>::empty());
    lemma_lines_from_skip_line(l, seq!['\r', '\n'], Seq::empty());
    assert(Seq::<char>::empty() + l =~= l);
    assert(seq!['\r', '\n'].drop_first() =~= seq!['\n']);
    assert(seq!['\n'].drop_first() =~= Seq::<char>::empty());
    assert(strip_cr(l.push('\r')) =~= l);
    assert(lines_from(seq!['\n'], l.push('\r')) =~= seq![l]);
    assert(lines(l + seq!['\r', '\n']) =~= seq![l]);
    lemma_lines_from_skip_line(l, seq!['\n'], Seq::empty());
    assert(l + seq!['\n'] =~= l.push('\n'));
    if l.len() == 0 || l.last() != '\r' {
        assert(strip_cr(l) =~= l);
        assert(lines_from(seq!['\n'], l) =~= seq![l]);
    }
}

} // verus!
