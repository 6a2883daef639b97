//! The text of the log: records separated into lines.
//!
//! A log is a run of bytes. Every newline byte ends a line, and bytes that
//! follow the last newline form a final line of their own. A log that is
//! empty or ends in a newline is *terminated*: appending a line to it adds
//! exactly one line and disturbs none of the others.

use vstd::prelude::*;

verus! {

/// The byte that ends a line.
pub const NEWLINE: u8 = 10;

/// The index of the first element of `s` that satisfies `p`, or the length
/// of `s` if no element does.
pub open spec fn first_where<T>(s: Seq<T>, p: spec_fn(T) -> bool) -> nat
    decreases s.len(),
{
    if s.len() == 0 {
        0
    } else if p(s[0]) {
        0
    } else {
        1 + first_where(s.skip(1), p)
    }
}

/// `n` is the first index at which `p` holds in `s`, or the length of `s`
/// if there is none.
pub open spec fn is_first_where<T>(s: Seq<T>, p: spec_fn(T) -> bool, n: int) -> bool {
    &&& 0 <= n <= s.len()
    &&& forall|i: int| 0 <= i < n ==> !p(#[trigger] s[i])
    &&& n < s.len() ==> p(s[n])
}

/// `first_where` finds the first index at which the predicate holds.
pub proof fn lemma_first_where<T>(s: Seq<T>, p: spec_fn(T) -> bool)
    ensures
        is_first_where(s, p, first_where(s, p) as int),
    decreases s.len(),
{
    if s.len() != 0 && !p(s[0]) {
        let rest = s.skip(1);
        lemma_first_where(rest, p);
        let n = first_where(s, p) as int;
        assert forall|i: int| 0 <= i < n implies !p(#[trigger] s[i]) by {
            if i > 0 {
                assert(s[i] == rest[i - 1]);
            }
        }
        if n < s.len() {
            assert(s[n] == rest[n - 1]);
        }
    }
}

/// Only one index is the first at which the predicate holds.
pub proof fn lemma_first_where_unique<T>(s: Seq<T>, p: spec_fn(T) -> bool, n: int)
    requires
        is_first_where(s, p, n),
    ensures
        first_where(s, p) == n,
{
    lemma_first_where(s, p);
    let m = first_where(s, p) as int;
    if m < n {
        assert(!p(s[m]));
    } else if n < m {
        assert(!p(s[n]));
    }
}

/// The test for the byte that ends a line.
pub open spec fn is_newline() -> spec_fn(u8) -> bool {
    |b: u8| b == NEWLINE
}

/// The length of the first line of `text`: the index of its first newline,
/// or the length of `text` if it has none.
pub open spec fn line_end(text: Seq<u8>) -> nat {
    first_where(text, is_newline())
}

/// No byte of `line` is a newline.
pub open spec fn single_line(line: Seq<u8>) -> bool {
    forall|i: int| 0 <= i < line.len() ==> #[trigger] line[i] != NEWLINE
}

/// Every element of `ls` is free of newlines.
pub open spec fn single_lines(ls: Seq<Seq<u8>>) -> bool {
    forall|i: int| 0 <= i < ls.len() ==> single_line(#[trigger] ls[i])
}

/// `text` is empty or ends in a newline.
pub open spec fn terminated(text: Seq<u8>) -> bool {
    text.len() == 0 || text.last() == NEWLINE
}

/// The lines of `text`, in order and without their newlines. Bytes after
/// the last newline count as a line; an empty text has no lines.
pub open spec fn lines(text: Seq<u8>) -> Seq<Seq<u8>>
    decreases text.len(),
{
    if text.len() == 0 {
        Seq::empty()
    } else {
        let n = line_end(text);
        if n >= text.len() {
            seq![text]
        } else {
            seq![text.subrange(0, n as int)] + lines(text.subrange(n as int + 1, text.len() as int))
        }
    }
}

/// The text made of the lines `ls`, each followed by a newline.
pub open spec fn join(ls: Seq<Seq<u8>>) -> Seq<u8>
    decreases ls.len(),
{
    if ls.len() == 0 {
        Seq::empty()
    } else {
        join(ls.drop_last()) + ls.last() + seq![NEWLINE]
    }
}

/// How `lines` takes the first line off the part of `text` that starts at
/// `start`, given the place `end` of the first newline at or after `start`
/// (the length of `text` if there is none).
pub proof fn lemma_lines_step(text: Seq<u8>, start: int, end: int)
    requires
        0 <= start <= end <= text.len(),
        start < text.len(),
        forall|i: int| start <= i < end ==> #[trigger] text[i] != NEWLINE,
        end < text.len() ==> text[end] == NEWLINE,
    ensures
        line_end(text.skip(start)) == end - start,
        end < text.len() ==> lines(text.skip(start)) == seq![text.subrange(start, end)] + lines(
            text.skip(end + 1),
        ),
        end == text.len() ==> lines(text.skip(start)) == seq![text.skip(start)],
{
    let rest = text.skip(start);
    assert(is_first_where(rest, is_newline(), end - start)) by {
        assert forall|i: int| 0 <= i < end - start implies !is_newline()(#[trigger] rest[i]) by {
            assert(rest[i] == text[start + i]);
        }
        if end < text.len() {
            assert(rest[end - start] == text[end]);
        }
    }
    lemma_first_where_unique(rest, is_newline(), end - start);
    if end < text.len() {
        assert(rest.subrange(0, end - start) =~= text.subrange(start, end));
        assert(rest.subrange(end - start + 1, rest.len() as int) =~= text.skip(end + 1));
    }
}

/// Every line of a text is free of newlines.
pub proof fn lemma_lines_single(text: Seq<u8>)
    ensures
        single_lines(lines(text)),
    decreases text.len(),
{
    if text.len() != 0 {
        lemma_first_where(text, is_newline());
        let n = line_end(text) as int;
        if n < text.len() {
            let head = text.subrange(0, n);
            let tail = text.subrange(n + 1, text.len() as int);
            lemma_lines_single(tail);
            assert forall|i: int| 0 <= i < lines(text).len() implies single_line(
                #[trigger] lines(text)[i],
            ) by {
                if i == 0 {
                    assert forall|k: int| 0 <= k < head.len() implies #[trigger] head[k]
                        != NEWLINE by {
                        assert(head[k] == text[k]);
                        assert(!is_newline()(text[k]));
                    }
                } else {
                    assert(lines(text)[i] == lines(tail)[i - 1]);
                }
            }
        } else {
            assert forall|k: int| 0 <= k < text.len() implies #[trigger] text[k] != NEWLINE by {
                assert(!is_newline()(text[k]));
            }
        }
    }
}

/// A text has at most as many lines as bytes.
pub proof fn lemma_lines_len(text: Seq<u8>)
    ensures
        lines(text).len() <= text.len(),
    decreases text.len(),
{
    if text.len() != 0 {
        let n = line_end(text) as int;
        if n < text.len() {
            lemma_lines_len(text.subrange(n + 1, text.len() as int));
        }
    }
}

/// Appending one line and its newline to a terminated text adds that line
/// after the others.
pub proof fn lemma_lines_push(text: Seq<u8>, line: Seq<u8>)
    requires
        terminated(text),
        single_line(line),
    ensures
        lines(text + line + seq![NEWLINE]) == lines(text).push(line),
    decreases text.len(),
{
    let whole = text + line + seq![NEWLINE];
    if text.len() == 0 {
        assert(whole.skip(0) =~= whole);
        assert(whole.skip(whole.len() as int) =~= Seq::<u8>::empty());
        lemma_lines_step(whole, 0, line.len() as int);
        assert(whole.subrange(0, line.len() as int) =~= line);
        assert(lines(whole) =~= lines(text).push(line));
    } else {
        lemma_first_where(text, is_newline());
        let n = line_end(text) as int;
        if n >= text.len() {
            assert(!is_newline()(text[text.len() - 1]));
        }
        let tail = text.subrange(n + 1, text.len() as int);
        assert(terminated(tail)) by {
            if tail.len() > 0 {
                assert(tail.last() == text.last());
            }
        }
        lemma_lines_push(tail, line);
        assert forall|i: int| 0 <= i < n implies #[trigger] whole[i] != NEWLINE by {
            assert(whole[i] == text[i]);
            assert(!is_newline()(text[i]));
        }
        assert(whole[n] == text[n]);
        assert(whole.skip(0) =~= whole);
        lemma_lines_step(whole, 0, n);
        assert(whole.subrange(0, n) =~= text.subrange(0, n));
        assert(whole.skip(n + 1) =~= tail + line + seq![NEWLINE]);
        assert(lines(whole) =~= lines(text).push(line));
    }
}

/// Joining splits over concatenation.
pub proof fn lemma_join_add(a: Seq<Seq<u8>>, b: Seq<Seq<u8>>)
    ensures
        join(a + b) == join(a) + join(b),
    decreases b.len(),
{
    if b.len() == 0 {
        assert(a + b =~= a);
        assert(join(a) + join(b) =~= join(a));
    } else {
        lemma_join_add(a, b.drop_last());
        assert((a + b).drop_last() =~= a + b.drop_last());
        assert((a + b).last() == b.last());
        assert(join(a + b) =~= join(a) + join(b));
    }
}

/// Appending lines, each with its newline, to a terminated text adds them
/// after the others, in order.
pub proof fn lemma_lines_append(text: Seq<u8>, ls: Seq<Seq<u8>>)
    requires
        terminated(text),
        single_lines(ls),
    ensures
        lines(text + join(ls)) == lines(text) + ls,
    decreases ls.len(),
{
    if ls.len() == 0 {
        assert(text + join(ls) =~= text);
        assert(lines(text) + ls =~= lines(text));
    } else {
        let front = ls.drop_last();
        assert(single_lines(front)) by {
            assert forall|i: int| 0 <= i < front.len() implies single_line(#[trigger] front[i]) by {
                assert(front[i] == ls[i]);
            }
        }
        lemma_lines_append(text, front);
        let before = text + join(front);
        assert(terminated(before)) by {
            if join(front).len() > 0 {
                assert(before.last() == join(front).last());
            } else {
                assert(before =~= text);
            }
        }
        lemma_lines_push(before, ls.last());
        assert(text + join(ls) =~= before + ls.last() + seq![NEWLINE]);
        assert((lines(text) + front).push(ls.last()) =~= lines(text) + ls);
    }
}

/// Splitting what `join` built gives back the lines it was built from.
pub proof fn lemma_lines_join(ls: Seq<Seq<u8>>)
    requires
        single_lines(ls),
    ensures
        lines(join(ls)) == ls,
{
    lemma_lines_append(Seq::empty(), ls);
    assert(Seq::<u8>::empty() + join(ls) =~= join(ls));
    assert(lines(Seq::<u8>::empty()) + ls =~= ls);
}

/// Finds the end of the line that starts at `start`: the place of the first
/// newline at or after `start`, or the length of `text` if there is none.
pub fn find_line_end(text: &[u8], start: usize) -> (end: usize)
    ensures
        start <= text.len() ==> start <= end <= text.len(),
        start <= text.len() ==> forall|i: int| start <= i < end ==> #[trigger] text@[i] != NEWLINE,
        start <= text.len() && end < text.len() ==> text@[end as int] == NEWLINE,
        start > text.len() ==> end == start,
{
    let mut end: usize = start;
    while end < text.len() && text[end] != NEWLINE
        invariant
            start <= end,
            start <= text.len() ==> end <= text.len(),
            start > text.len() ==> end == start,
            forall|i: int| start <= i < end ==> #[trigger] text@[i] != NEWLINE,
        decreases text.len() - end,
    {
        end += 1;
    }
    end
}

/// Counts the lines of `text`.
pub fn count_lines(text: &[u8]) -> (n: usize)
    ensures
        n == lines(text@).len(),
{
    let mut n: usize = 0;
    let mut start: usize = 0;
    proof {
        assert(text@.skip(0) =~= text@);
        lemma_lines_len(text@);
    }
    while start < text.len()
        invariant
            start <= text.len(),
            n + lines(text@.skip(start as int)).len() == lines(text@).len(),
            lines(text@).len() <= text.len(),
        decreases text.len() - start,
    {
        let end = find_line_end(text, start);
        proof {
            lemma_lines_step(text@, start as int, end as int);
            if end == text.len() {
                assert(text@.skip(end as int) =~= Seq::<u8>::empty());
            }
        }
        n += 1;
        start = if end < text.len() {
            end + 1
        } else {
            end
        };
    }
    proof {
        assert(text@.skip(start as int) =~= Seq::<u8>::empty());
    }
    n
}

/// Appends `line` and a newline to `text`.
pub fn push_line(text: &mut Vec<u8>, line: &[u8])
    ensures
        final(text)@ == old(text)@ + line@ + seq![NEWLINE],
{
    let mut i: usize = 0;
    while i < line.len()
        invariant
            i <= line.len(),
            text@ == old(text)@ + line@.take(i as int),
        decreases line.len() - i,
    {
        text.push(line[i]);
        i += 1;
        assert(text@ =~= old(text)@ + line@.take(i as int));
    }
    text.push(NEWLINE);
    assert(line@.take(i as int) =~= line@);
}

} // verus!
