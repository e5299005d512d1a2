//! The storage side of the service: the schema script's statements, the
//! choice of history query, and the conversion of stored rows into
//! payloads. The database itself is driven by the caller.

use vstd::prelude::*;

use crate::protocol::{message_views, MessagePayload, MessageView};
use crate::text::{chars_of, is_whitespace, lemma_trim_shape, string_of, trim, trim_range};

verus! {

/// A row of the `messages` table.
pub struct MessageRow {
    pub id: i64,
    pub topic: String,
    pub text: String,
    pub created_at: String,
}

/// The payload that a row stands for: its creation time becomes the
/// timestamp.
pub open spec fn row_view(row: MessageRow) -> MessageView {
    MessageView { id: row.id, topic: row.topic@, text: row.text@, ts: row.created_at@ }
}

impl From<MessageRow> for MessagePayload {
    fn from(value: MessageRow) -> (p: Self)
        ensures
            p@ == row_view(value),
    {
        MessagePayload { id: value.id, topic: value.topic, text: value.text, ts: value.created_at }
    }
}

impl vstd::std_specs::convert::FromSpecImpl<MessageRow> for MessagePayload {
    open spec fn obeys_from_spec() -> bool {
        true
    }

    open spec fn from_spec(v: MessageRow) -> Self {
        MessagePayload { id: v.id, topic: v.topic, text: v.text, ts: v.created_at }
    }
}

/// The payloads of `rows`, in the same order.
pub fn rows_into_payloads(rows: Vec<MessageRow>) -> (items: Vec<MessagePayload>)
    ensures
        message_views(items@) == rows@.map_values(|r: MessageRow| row_view(r)),
{
    let ghost all = rows@;
    let mut items: Vec<MessagePayload> = Vec::new();
    for row in it: rows.into_iter()
        invariant
            it.seq() == all,
            items@.len() == it.index(),
            forall|i: int| 0 <= i < items@.len() ==> #[trigger] items@[i]@ == row_view(all[i]),
    {
        items.push(MessagePayload::from(row));
    }
    assert(message_views(items@) =~= all.map_values(|r: MessageRow| row_view(r)));
    items
}

/// The payloads keep the rows' order and each payload carries its row's
/// identifier, topic and text, with the row's creation time as timestamp.
pub proof fn lemma_row_payloads(rows: Seq<MessageRow>, items: Seq<MessagePayload>, i: int)
    requires
        message_views(items) == rows.map_values(|r: MessageRow| row_view(r)),
        0 <= i < rows.len(),
    ensures
        items.len() == rows.len(),
        items[i].id == rows[i].id,
        items[i].topic@ == rows[i].topic@,
        items[i].text@ == rows[i].text@,
        items[i].ts@ == rows[i].created_at@,
{
    assert(message_views(items).len() == items.len());
    assert(message_views(items)[i] == items[i]@);
    assert(rows.map_values(|r: MessageRow| row_view(r))[i] == row_view(rows[i]));
}

/// Which history query to run: the messages after a known identifier,
/// oldest first, or the most recent messages; both at most `limit`.
#[derive(Debug, Clone, Copy, PartialEq, Eq, Structural)]
pub enum HistoryQuery {
    After { since_id: i64, limit: i64 },
    Latest { limit: i64 },
}

/// The query for a history request: after `since_id` when one is given,
/// the latest messages otherwise.
pub fn history_query(since_id: Option<i64>, limit: u32) -> (q: HistoryQuery)
    ensures
        q == match since_id {
            Some(s) => HistoryQuery::After { since_id: s, limit: limit as i64 },
            None => HistoryQuery::Latest { limit: limit as i64 },
        },
{
    match since_id {
        Some(s) => HistoryQuery::After { since_id: s, limit: limit as i64 },
        None => HistoryQuery::Latest { limit: limit as i64 },
    }
}

/// The pieces of `s` between occurrences of `sep`, in order; `n`
/// separators give `n + 1` pieces, empty ones included.
pub open spec fn split_on(s: Seq<char>, sep: char) -> Seq<Seq<char>>
    decreases s.len(),
{
    if s.len() == 0 {
        seq![Seq::<char>::empty()]
    } else {
        let pieces = split_on(s.drop_last(), sep);
        if s.last() == sep {
            pieces.push(Seq::<char>::empty())
        } else {
            pieces.update(pieces.len() - 1, pieces.last().push(s.last()))
        }
    }
}

/// The pieces joined back together, with `sep` between each two.
pub open spec fn join_with(pieces: Seq<Seq<char>>, sep: char) -> Seq<char>
    decreases pieces.len(),
{
    if pieces.len() <= 1 {
        if pieces.len() == 1 {
            pieces[0]
        } else {
            Seq::<char>::empty()
        }
    } else {
        join_with(pieces.drop_last(), sep).push(sep) + pieces.last()
    }
}

/// Splitting is cut by the separator alone: the pieces contain no
/// separator, there is one more piece than there are separators, and
/// joining the pieces with the separator gives the text back.
pub proof fn lemma_split_on_inverse(s: Seq<char>, sep: char)
    ensures
        split_on(s, sep).len() >= 1,
        forall|k: int|
            0 <= k < split_on(s, sep).len() ==> !(#[trigger] split_on(s, sep)[k]).contains(sep),
        join_with(split_on(s, sep), sep) == s,
        !s.contains(sep) ==> split_on(s, sep) == seq![s],
    decreases s.len(),
{
    if s.len() == 0 {
        assert(split_on(s, sep) == seq![Seq::<char>::empty()]);
        assert(s =~= Seq::<char>::empty());
    } else {
        let rest = s.drop_last();
        let c = s.last();
        lemma_split_on_inverse(rest, sep);
        let p = split_on(rest, sep);
        assert(s =~= rest.push(c));
        if !s.contains(sep) {
            assert(!rest.contains(sep)) by {
                if rest.contains(sep) {
                    let j = choose|j: int| 0 <= j < rest.len() && rest[j] == sep;
                    assert(s[j] == sep);
                }
            }
            assert(c != sep) by {
                assert(s[s.len() - 1] == c);
            }
        }
        if c == sep {
            let q = p.push(Seq::<char>::empty());
            assert(q.drop_last() =~= p);
            assert(join_with(q, sep) =~= s);
            assert forall|k: int| 0 <= k < q.len() implies !(#[trigger] q[k]).contains(sep) by {
                if k < p.len() {
                    assert(q[k] == p[k]);
                }
            }
        } else {
            let last = p.last().push(c);
            let q = p.update(p.len() - 1, last);
            assert forall|k: int| 0 <= k < q.len() implies !(#[trigger] q[k]).contains(sep) by {
                if k < p.len() - 1 {
                    assert(q[k] == p[k]);
                } else {
                    assert(!p[p.len() - 1].contains(sep));
                    if last.contains(sep) {
                        let j = choose|j: int| 0 <= j < last.len() && last[j] == sep;
                        if j < p.last().len() {
                            assert(p.last()[j] == sep);
                        }
                    }
                }
            }
            if p.len() == 1 {
                assert(join_with(q, sep) =~= s);
            } else {
                assert(q.drop_last() =~= p.drop_last());
                assert(join_with(q, sep) =~= join_with(p, sep).push(c));
            }
            if !s.contains(sep) {
                assert(q =~= seq![s]);
            }
        }
    }
}

/// Trimming and dropping empty results works piece by piece.
proof fn lemma_trimmed_non_empty_concat(x: Seq<Seq<char>>, y: Seq<Seq<char>>)
    ensures
        trimmed_non_empty(x + y) == trimmed_non_empty(x) + trimmed_non_empty(y),
    decreases y.len(),
{
    if y.len() == 0 {
        assert(x + y =~= x);
        assert(trimmed_non_empty(x) + trimmed_non_empty(y) =~= trimmed_non_empty(x));
    } else {
        lemma_trimmed_non_empty_concat(x, y.drop_last());
        assert((x + y).drop_last() =~= x + y.drop_last());
        assert((x + y).last() == y.last());
        let t = trim(y.last());
        if t.len() != 0 {
            assert((trimmed_non_empty(x) + trimmed_non_empty(y.drop_last())).push(t)
                =~= trimmed_non_empty(x) + trimmed_non_empty(y.drop_last()).push(t));
        }
    }
}

/// The statements of a script made of two parts around one `;` are the
/// statements of the first part followed by those of the second.
pub proof fn lemma_statements_concat(a: Seq<char>, b: Seq<char>)
    ensures
        script_statements(a.push(';') + b) == script_statements(a) + script_statements(b),
{
    lemma_split_on_concat(a, b, ';');
    lemma_trimmed_non_empty_concat(split_on(a, ';'), split_on(b, ';'));
}

/// Every statement is non-empty, holds no `;`, and neither starts nor ends
/// with whitespace.
pub proof fn lemma_statements_shape(script: Seq<char>)
    ensures
        forall|k: int|
            0 <= k < script_statements(script).len() ==> {
                let st = #[trigger] script_statements(script)[k];
                &&& st.len() > 0
                &&& !st.contains(';')
                &&& !is_whitespace(st[0])
                &&& !is_whitespace(st.last())
            },
{
    lemma_split_on_inverse(script, ';');
    lemma_pieces_shape(split_on(script, ';'));
}

/// The trimmed, non-empty pieces keep the shape of the pieces.
proof fn lemma_pieces_shape(pieces: Seq<Seq<char>>)
    requires
        forall|k: int| 0 <= k < pieces.len() ==> !(#[trigger] pieces[k]).contains(';'),
    ensures
        forall|k: int|
            0 <= k < trimmed_non_empty(pieces).len() ==> {
                let st = #[trigger] trimmed_non_empty(pieces)[k];
                &&& st.len() > 0
                &&& !st.contains(';')
                &&& !is_whitespace(st[0])
                &&& !is_whitespace(st.last())
            },
    decreases pieces.len(),
{
    if pieces.len() > 0 {
        let rest = pieces.drop_last();
        assert forall|k: int| 0 <= k < rest.len() implies !(#[trigger] rest[k]).contains(';') by {
            assert(rest[k] == pieces[k]);
        }
        lemma_pieces_shape(rest);
        let p = pieces.last();
        assert(!pieces[pieces.len() - 1].contains(';'));
        lemma_trim_shape(p);
        let t = trim(p);
        if t.len() != 0 {
            let (a, b) = choose|a: int, b: int|
                0 <= a <= b <= p.len() && trim(p) == p.subrange(a, b) && (forall|i: int|
                    0 <= i < a ==> is_whitespace(#[trigger] p[i])) && (forall|i: int|
                    b <= i < p.len() ==> is_whitespace(#[trigger] p[i])) && (a < b ==> (
                !is_whitespace(p[a]) && !is_whitespace(p[b - 1])));
            assert(t[0] == p[a]);
            assert(t.last() == p[b - 1]);
            if t.contains(';') {
                let j = choose|j: int| 0 <= j < t.len() && t[j] == ';';
                assert(p[a + j] == ';');
            }
            let r = trimmed_non_empty(rest);
            assert forall|k: int| 0 <= k < r.push(t).len() implies {
                let st = #[trigger] r.push(t)[k];
                &&& st.len() > 0
                &&& !st.contains(';')
                &&& !is_whitespace(st[0])
                &&& !is_whitespace(st.last())
            } by {
                if k < r.len() {
                    assert(r.push(t)[k] == r[k]);
                }
            }
        }
    }
}

/// A script without `;` is one statement: itself, trimmed, unless it is
/// all whitespace; line breaks inside it are kept.
pub proof fn lemma_single_statement(script: Seq<char>)
    requires
        !script.contains(';'),
        trim(script).len() > 0,
    ensures
        script_statements(script) == seq![trim(script)],
{
    lemma_split_on_inverse(script, ';');
    let pieces = seq![script];
    assert(split_on(script, ';') == pieces);
    assert(pieces.drop_last() =~= Seq::<Seq<char>>::empty());
    assert(pieces.last() == script);
    assert(trimmed_non_empty(Seq::<Seq<char>>::empty()) == Seq::<Seq<char>>::empty());
    assert(trimmed_non_empty(pieces) == Seq::<Seq<char>>::empty().push(trim(script)));
    assert(Seq::<Seq<char>>::empty().push(trim(script)) =~= seq![trim(script)]);
}

/// Splitting a text made of two parts around one separator gives the
/// pieces of the first part followed by the pieces of the second.
pub proof fn lemma_split_on_concat(a: Seq<char>, b: Seq<char>, sep: char)
    ensures
        split_on(a.push(sep) + b, sep) == split_on(a, sep) + split_on(b, sep),
    decreases b.len(),
{
    if b.len() == 0 {
        assert(a.push(sep) + b =~= a.push(sep));
        assert(a.push(sep).drop_last() =~= a);
        assert(split_on(a, sep).push(Seq::<char>::empty()) =~= split_on(a, sep) + seq![
            Seq::<char>::empty(),
        ]);
    } else {
        let b0 = b.drop_last();
        let c = b.last();
        lemma_split_on_concat(a, b0, sep);
        lemma_split_on_inverse(b0, sep);
        let whole = a.push(sep) + b;
        assert(whole.drop_last() =~= a.push(sep) + b0);
        assert(whole.last() == c);
        let x = split_on(a, sep);
        let y = split_on(b0, sep);
        if c == sep {
            assert((x + y).push(Seq::<char>::empty()) =~= x + y.push(Seq::<char>::empty()));
        } else {
            assert((x + y).last() == y.last());
            assert((x + y).update((x + y).len() - 1, y.last().push(c)) =~= x + y.update(
                y.len() - 1,
                y.last().push(c),
            ));
        }
    }
}

/// Each piece trimmed of surrounding whitespace, the empty results left out.
pub open spec fn trimmed_non_empty(pieces: Seq<Seq<char>>) -> Seq<Seq<char>>
    decreases pieces.len(),
{
    if pieces.len() == 0 {
        Seq::<Seq<char>>::empty()
    } else {
        let rest = trimmed_non_empty(pieces.drop_last());
        if trim(pieces.last()).len() == 0 {
            rest
        } else {
            rest.push(trim(pieces.last()))
        }
    }
}

/// The statements of a schema script: its `;`-separated pieces, trimmed,
/// without the empty ones.
pub open spec fn script_statements(script: Seq<char>) -> Seq<Seq<char>> {
    trimmed_non_empty(split_on(script, ';'))
}

/// Appends `v[from..to]`, trimmed, to `out` unless it is empty.
fn push_trimmed(out: &mut Vec<String>, v: &Vec<char>, from: usize, to: usize)
    requires
        from <= to <= v.len(),
    ensures
        final(out)@.map_values(|s: String| s@) == if trim(
            v@.subrange(from as int, to as int),
        ).len() == 0 {
            old(out)@.map_values(|s: String| s@)
        } else {
            old(out)@.map_values(|s: String| s@).push(trim(v@.subrange(from as int, to as int)))
        },
{
    let (start, end) = trim_range(v, from, to);
    if start < end {
        let statement = string_of(v, start, end);
        out.push(statement);
        assert(out@.map_values(|s: String| s@) =~= old(out)@.map_values(|s: String| s@).push(
            trim(v@.subrange(from as int, to as int)),
        ));
    }
}

/// Splits a schema script into its statements: the `;`-separated pieces,
/// trimmed of surrounding whitespace, empty ones left out.
pub fn migration_statements(script: &str) -> (statements: Vec<String>)
    ensures
        statements@.map_values(|s: String| s@) == script_statements(script@),
{
    let chars = chars_of(script);
    let n = chars.len();
    let mut out: Vec<String> = Vec::new();
    let mut piece_start: usize = 0;
    let mut i: usize = 0;
    let ghost mut done: Seq<Seq<char>> = Seq::empty();
    assert(chars@.take(0) =~= Seq::<char>::empty());
    assert(split_on(Seq::<char>::empty(), ';') == done.push(chars@.subrange(0, 0)));
    assert(out@.map_values(|s: String| s@) =~= Seq::<Seq<char>>::empty());
    while i < n
        invariant
            n == chars@.len(),
            piece_start <= i <= n,
            split_on(chars@.take(i as int), ';') == done.push(
                chars@.subrange(piece_start as int, i as int),
            ),
            out@.map_values(|s: String| s@) == trimmed_non_empty(done),
        decreases n - i,
    {
        let ghost cur = chars@.subrange(piece_start as int, i as int);
        assert(chars@.take(i + 1).drop_last() =~= chars@.take(i as int));
        assert(chars@.take(i + 1).last() == chars@[i as int]);
        if chars[i] == ';' {
            push_trimmed(&mut out, &chars, piece_start, i);
            proof {
                assert(done.push(cur).drop_last() =~= done);
                done = done.push(cur);
            }
            piece_start = i + 1;
            assert(chars@.subrange(piece_start as int, piece_start as int) =~= Seq::<
                char,
            >::empty());
        } else {
            assert(chars@.subrange(piece_start as int, i + 1) =~= cur.push(chars@[i as int]));
            assert(done.push(cur).update(done.len() as int, cur.push(chars@[i as int])) =~= done.push(
                cur.push(chars@[i as int]),
            ));
        }
        i = i + 1;
    }
    let ghost last = chars@.subrange(piece_start as int, n as int);
    push_trimmed(&mut out, &chars, piece_start, n);
    proof {
        assert(chars@.take(n as int) =~= chars@);
        assert(done.push(last).drop_last() =~= done);
    }
    out
}

} // verus!
