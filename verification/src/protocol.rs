//! The wire protocol between primary and replica nodes.
//!
//! One message per line, fields separated by white space, each line
//! terminated by `\n`:
//!
//! - `PUT <key> <value>` — replicate one key-value pair;
//! - `JOIN <replica_addr>` — a replica registers with the primary;
//! - `SNAPSHOT_END` — marks the end of an initial state transfer.
//!
//! A snapshot is not a single wire message: it is sent as one `PUT` line
//! per entry followed by a `SNAPSHOT_END` line, and a receiver sees only
//! that sequence of independent messages.
//!
//! The grammar is specified by [`tokens`]: a line parses by its
//! whitespace-separated tokens alone, so keys, values and addresses must
//! be nonempty and free of white space ([`is_token`]) to be representable.

use vstd::prelude::*;
use vstd::string::StrSliceExecFns;
use vstd::string::StringExecFns;

verus! {

// ---------------------------------------------------------------------
// White space and tokenization
// ---------------------------------------------------------------------

/// A character with the Unicode `White_Space` property: what separates
/// tokens on the wire.
pub open spec fn is_wspace(c: char) -> bool {
    ||| c == '\u{9}'
    ||| c == '\u{a}'
    ||| c == '\u{b}'
    ||| c == '\u{c}'
    ||| c == '\u{d}'
    ||| c == ' '
    ||| c == '\u{85}'
    ||| c == '\u{a0}'
    ||| c == '\u{1680}'
    ||| c == '\u{2000}'
    ||| c == '\u{2001}'
    ||| c == '\u{2002}'
    ||| c == '\u{2003}'
    ||| c == '\u{2004}'
    ||| c == '\u{2005}'
    ||| c == '\u{2006}'
    ||| c == '\u{2007}'
    ||| c == '\u{2008}'
    ||| c == '\u{2009}'
    ||| c == '\u{200a}'
    ||| c == '\u{2028}'
    ||| c == '\u{2029}'
    ||| c == '\u{202f}'
    ||| c == '\u{205f}'
    ||| c == '\u{3000}'
}

/// Runtime test for [`is_wspace`].
pub fn is_wspace_char(c: char) -> (r: bool)
    ensures
        r == is_wspace(c),
{
    c == '\u{9}' || c == '\u{a}' || c == '\u{b}' || c == '\u{c}' || c == '\u{d}' || c == ' '
        || c == '\u{85}' || c == '\u{a0}' || c == '\u{1680}' || c == '\u{2000}' || c == '\u{2001}'
        || c == '\u{2002}' || c == '\u{2003}' || c == '\u{2004}' || c == '\u{2005}' || c
        == '\u{2006}' || c == '\u{2007}' || c == '\u{2008}' || c == '\u{2009}' || c == '\u{200a}'
        || c == '\u{2028}' || c == '\u{2029}' || c == '\u{202f}' || c == '\u{205f}' || c
        == '\u{3000}'
}

/// The token under construction, as zero or one finished tokens.
pub open spec fn flush(cur: Seq<char>) -> Seq<Seq<char>> {
    if cur.len() == 0 {
        seq![]
    } else {
        seq![cur]
    }
}

/// Left fold of the splitter: `cur` is the token being read.
pub open spec fn toks(s: Seq<char>, cur: Seq<char>) -> Seq<Seq<char>>
    decreases s.len(),
{
    if s.len() == 0 {
        flush(cur)
    } else if is_wspace(s[0]) {
        flush(cur) + toks(s.drop_first(), seq![])
    } else {
        toks(s.drop_first(), cur.push(s[0]))
    }
}

/// The whitespace-separated tokens of `s`, in order: maximal runs of
/// non-whitespace characters.
pub open spec fn tokens(s: Seq<char>) -> Seq<Seq<char>> {
    toks(s, seq![])
}

/// Nonempty text without white space: what a key, value or address must
/// be to survive the wire format.
pub open spec fn is_token(s: Seq<char>) -> bool {
    s.len() > 0 && forall|i: int| 0 <= i < s.len() ==> !is_wspace(s[i])
}

/// Split a line into its whitespace-separated tokens.
pub fn tokenize(s: &str) -> (r: Vec<String>)
    ensures
        r.deep_view() == tokens(s@),
{
    let n = s.unicode_len();
    let mut r: Vec<String> = Vec::new();
    let mut i: usize = 0;
    let mut start: usize = 0;
    proof {
        assert(s@.skip(0) =~= s@);
        assert(s@.subrange(0, 0) =~= Seq::<char>::empty());
        assert(Seq::<char>::empty() =~= seq![]);
        assert(r.deep_view() + toks(s@, seq![]) =~= toks(s@, seq![]));
    }
    while i < n
        invariant
            start <= i <= n,
            n == s@.len(),
            forall|k: int| start <= k < i ==> !is_wspace(s@[k]),
            tokens(s@) == r.deep_view() + toks(
                s@.skip(i as int),
                s@.subrange(start as int, i as int),
            ),
        decreases n - i,
    {
        let ghost pre = s@.skip(i as int);
        let ghost cur = s@.subrange(start as int, i as int);
        let ghost rest = s@.skip(i as int + 1);
        proof {
            assert(pre.len() > 0);
            assert(pre[0] == s@[i as int]);
            assert(pre.drop_first() =~= rest);
        }
        let c = s.get_char(i);
        if is_wspace_char(c) {
            proof {
                assert(toks(pre, cur) == flush(cur) + toks(rest, seq![]));
            }
            if start < i {
                let ghost old_dv = r.deep_view();
                let tok = s.substring_char(start, i).to_owned();
                r.push(tok);
                proof {
                    assert(tok@ == cur);
                    assert(r.deep_view() =~= old_dv.push(cur));
                    assert(flush(cur) =~= seq![cur]);
                    assert(old_dv + (seq![cur] + toks(rest, seq![])) =~= old_dv.push(cur) + toks(
                        rest,
                        seq![],
                    ));
                }
            } else {
                proof {
                    assert(cur =~= Seq::<char>::empty());
                    assert(flush(cur) + toks(rest, seq![]) =~= toks(rest, seq![]));
                }
            }
            proof {
                assert(s@.subrange(i as int + 1, i as int + 1) =~= Seq::<char>::empty());
            }
            start = i + 1;
        } else {
            proof {
                assert(toks(pre, cur) == toks(rest, cur.push(s@[i as int])));
                assert(cur.push(s@[i as int]) =~= s@.subrange(start as int, i as int + 1));
            }
        }
        i = i + 1;
    }
    let ghost cur = s@.subrange(start as int, n as int);
    proof {
        assert(s@.skip(n as int) =~= Seq::<char>::empty());
        assert(toks(s@.skip(n as int), cur) == flush(cur));
    }
    if start < n {
        let ghost old_dv = r.deep_view();
        let tok = s.substring_char(start, n).to_owned();
        r.push(tok);
        proof {
            assert(flush(cur) =~= seq![cur]);
            assert(r.deep_view() =~= old_dv.push(cur));
            assert(old_dv + seq![cur] =~= old_dv.push(cur));
        }
    } else {
        proof {
            assert(cur =~= Seq::<char>::empty());
        }
    }
    proof {
        assert(r.deep_view() =~= tokens(s@));
    }
    r
}

// ---------------------------------------------------------------------
// Messages
// ---------------------------------------------------------------------

/// A message of the replication protocol.
#[derive(Debug, Clone, PartialEq)]
pub enum Message {
    /// Replicate one key-value pair. Wire form: `PUT <key> <value>\n`.
    Put { key: String, value: String },
    /// Register a replica with the primary; the field is the address on
    /// which the replica listens. Wire form: `JOIN <replica_addr>\n`.
    Join { replica_addr: String },
    /// A full state transfer. Never a single wire message: it formats to
    /// one `PUT` line per entry followed by a `SNAPSHOT_END` line, and
    /// [`Message::parse`] never returns it.
    Snapshot { entries: Vec<(String, String)> },
    /// Marks the end of an initial state transfer. Wire form:
    /// `SNAPSHOT_END\n`.
    SnapshotEnd,
}

/// The mathematical value of a [`Message`]: the same shape over
/// character sequences.
pub enum MessageView {
    Put { key: Seq<char>, value: Seq<char> },
    Join { replica_addr: Seq<char> },
    Snapshot { entries: Seq<(Seq<char>, Seq<char>)> },
    SnapshotEnd,
}

impl View for Message {
    type V = MessageView;

    open spec fn view(&self) -> MessageView {
        match self {
            Message::Put { key, value } => MessageView::Put { key: key@, value: value@ },
            Message::Join { replica_addr } => MessageView::Join { replica_addr: replica_addr@ },
            Message::Snapshot { entries } => MessageView::Snapshot {
                entries: entries.deep_view(),
            },
            Message::SnapshotEnd => MessageView::SnapshotEnd,
        }
    }
}

/// The keyword of a `PUT` line.
pub open spec fn put_tok() -> Seq<char> {
    seq!['P', 'U', 'T']
}

/// The keyword of a `JOIN` line.
pub open spec fn join_tok() -> Seq<char> {
    seq!['J', 'O', 'I', 'N']
}

/// The keyword of a `SNAPSHOT_END` line.
pub open spec fn snapshot_end_tok() -> Seq<char> {
    seq!['S', 'N', 'A', 'P', 'S', 'H', 'O', 'T', '_', 'E', 'N', 'D']
}

/// What [`Message::parse`] returns on a line with characters `s`: a
/// message determined by the line's tokens alone. Any other token shape
/// is dropped.
pub open spec fn parse_spec(s: Seq<char>) -> Option<MessageView> {
    let ts = tokens(s);
    if ts.len() == 1 && ts[0] == snapshot_end_tok() {
        Some(MessageView::SnapshotEnd)
    } else if ts.len() == 3 && ts[0] == put_tok() {
        Some(MessageView::Put { key: ts[1], value: ts[2] })
    } else if ts.len() == 2 && ts[0] == join_tok() {
        Some(MessageView::Join { replica_addr: ts[1] })
    } else {
        None
    }
}

/// The wire line for one key-value pair.
pub open spec fn put_line(key: Seq<char>, value: Seq<char>) -> Seq<char> {
    put_tok() + seq![' '] + key + seq![' '] + value + seq!['\n']
}

/// The wire line registering a replica.
pub open spec fn join_line(replica_addr: Seq<char>) -> Seq<char> {
    join_tok() + seq![' '] + replica_addr + seq!['\n']
}

/// The wire line ending a state transfer.
pub open spec fn snapshot_end_line() -> Seq<char> {
    snapshot_end_tok() + seq!['\n']
}

/// The wire text of a full state transfer: one `PUT` line per entry, in
/// order, then a `SNAPSHOT_END` line.
pub open spec fn snapshot_text(entries: Seq<(Seq<char>, Seq<char>)>) -> Seq<char>
    decreases entries.len(),
{
    if entries.len() == 0 {
        snapshot_end_line()
    } else {
        put_line(entries[0].0, entries[0].1) + snapshot_text(entries.drop_first())
    }
}

/// What [`Message::format`] returns for a message.
pub open spec fn format_spec(m: MessageView) -> Seq<char> {
    match m {
        MessageView::Put { key, value } => put_line(key, value),
        MessageView::Join { replica_addr } => join_line(replica_addr),
        MessageView::Snapshot { entries } => snapshot_text(entries),
        MessageView::SnapshotEnd => snapshot_end_line(),
    }
}

/// A message the wire format can carry faithfully: every key, value and
/// address is a [token](is_token).
pub open spec fn wf_message(m: MessageView) -> bool {
    match m {
        MessageView::Put { key, value } => is_token(key) && is_token(value),
        MessageView::Join { replica_addr } => is_token(replica_addr),
        MessageView::Snapshot { entries } => forall|i: int|
            0 <= i < entries.len() ==> is_token(#[trigger] entries[i].0) && is_token(
                entries[i].1,
            ),
        MessageView::SnapshotEnd => true,
    }
}

/// The spec keywords are the views of the corresponding literals.
proof fn lemma_keyword_strlits()
    ensures
        "PUT"@ == put_tok(),
        "JOIN"@ == join_tok(),
        "SNAPSHOT_END"@ == snapshot_end_tok(),
{
    reveal_strlit("PUT");
    reveal_strlit("JOIN");
    reveal_strlit("SNAPSHOT_END");
    assert("PUT"@ =~= put_tok());
    assert("JOIN"@ =~= join_tok());
    assert("SNAPSHOT_END"@ =~= snapshot_end_tok());
}

impl Message {
    /// Parse one line of protocol text. Returns the message the line
    /// carries, or nothing when the line fits no rule of the grammar —
    /// such lines are dropped silently by every caller.
    pub fn parse(input: &str) -> (r: Option<Message>)
        ensures
            (match parse_spec(input@) {
                Some(mv) => r matches Some(m) && m@ == mv,
                None => r is None,
            }),
    {
        let ts = tokenize(input);
        let put_kw: String = "PUT".to_owned();
        let join_kw: String = "JOIN".to_owned();
        let snapshot_end_kw: String = "SNAPSHOT_END".to_owned();
        proof {
            lemma_keyword_strlits();
        }
        if ts.len() == 1 && ts[0] == snapshot_end_kw {
            Some(Message::SnapshotEnd)
        } else if ts.len() == 3 && ts[0] == put_kw {
            let key = ts[1].clone();
            let value = ts[2].clone();
            Some(Message::Put { key, value })
        } else if ts.len() == 2 && ts[0] == join_kw {
            let replica_addr = ts[1].clone();
            Some(Message::Join { replica_addr })
        } else {
            None
        }
    }

    /// Format the message for the wire: its line (or, for a snapshot,
    /// its sequence of lines), `\n`-terminated.
    pub fn format(&self) -> (r: String)
        ensures
            r@ == format_spec(self@),
    {
        proof {
            reveal_strlit("PUT ");
            reveal_strlit("JOIN ");
            reveal_strlit("SNAPSHOT_END\n");
            reveal_strlit(" ");
            reveal_strlit("\n");
            lemma_keyword_strlits();
        }
        match self {
            Message::Put { key, value } => {
                let mut s = String::new();
                s.append("PUT ");
                s.append(key.as_str());
                s.append(" ");
                s.append(value.as_str());
                s.append("\n");
                proof {
                    assert(s@ =~= put_line(key@, value@));
                }
                s
            },
            Message::Join { replica_addr } => {
                let mut s = String::new();
                s.append("JOIN ");
                s.append(replica_addr.as_str());
                s.append("\n");
                proof {
                    assert(s@ =~= join_line(replica_addr@));
                }
                s
            },
            Message::Snapshot { entries } => {
                let ghost ev = entries.deep_view();
                let mut s = String::new();
                let mut i: usize = 0;
                proof {
                    assert(ev.skip(0) =~= ev);
                }
                while i < entries.len()
                    invariant
                        i <= entries.len(),
                        ev == entries.deep_view(),
                        snapshot_text(ev) == s@ + snapshot_text(ev.skip(i as int)),
                        "PUT "@ == put_tok() + seq![' '],
                        " "@ == seq![' '],
                        "\n"@ == seq!['\n'],
                    decreases entries.len() - i,
                {
                    let ghost pre = ev.skip(i as int);
                    proof {
                        assert(pre.len() > 0);
                        assert(pre[0] == ev[i as int]);
                        assert(pre.drop_first() =~= ev.skip(i as int + 1));
                        assert(snapshot_text(pre) == put_line(pre[0].0, pre[0].1)
                            + snapshot_text(pre.drop_first()));
                    }
                    let ghost s0 = s@;
                    let entry = &entries[i];
                    s.append("PUT ");
                    s.append(entry.0.as_str());
                    s.append(" ");
                    s.append(entry.1.as_str());
                    s.append("\n");
                    proof {
                        assert(ev[i as int] == (entries@[i as int].0@, entries@[i as int].1@));
                        assert(s@ =~= s0 + put_line(ev[i as int].0, ev[i as int].1));
                        assert(s0 + put_line(ev[i as int].0, ev[i as int].1) + snapshot_text(
                            ev.skip(i as int + 1),
                        ) =~= s0 + (put_line(ev[i as int].0, ev[i as int].1) + snapshot_text(
                            ev.skip(i as int + 1),
                        )));
                    }
                    i = i + 1;
                }
                proof {
                    assert(ev.skip(entries@.len() as int) =~= Seq::<(Seq<char>, Seq<char>)>::empty());
                }
                s.append("SNAPSHOT_END\n");
                proof {
                    assert("SNAPSHOT_END\n"@ =~= snapshot_end_line());
                    assert(s@ =~= snapshot_text(ev));
                }
                s
            },
            Message::SnapshotEnd => {
                let s = "SNAPSHOT_END\n".to_owned();
                proof {
                    assert(s@ =~= snapshot_end_line());
                }
                s
            },
        }
    }
}

// ---------------------------------------------------------------------
// Laws of the codec
// ---------------------------------------------------------------------

/// A run of non-whitespace characters passes through the splitter into
/// the token under construction.
proof fn lemma_toks_nonws(t: Seq<char>, rest: Seq<char>, cur: Seq<char>)
    requires
        forall|i: int| 0 <= i < t.len() ==> !is_wspace(t[i]),
    ensures
        toks(t + rest, cur) == toks(rest, cur + t),
    decreases t.len(),
{
    if t.len() == 0 {
        assert(t + rest =~= rest);
        assert(cur + t =~= cur);
    } else {
        let s = t + rest;
        assert(s.len() > 0);
        assert(s[0] == t[0]);
        assert(!is_wspace(s[0]));
        assert(s.drop_first() =~= t.drop_first() + rest);
        assert(forall|i: int|
            0 <= i < t.drop_first().len() ==> !is_wspace(#[trigger] t.drop_first()[i]));
        lemma_toks_nonws(t.drop_first(), rest, cur.push(t[0]));
        assert(cur.push(t[0]) + t.drop_first() =~= cur + t);
    }
}

/// The protocol keywords are tokens.
proof fn lemma_keywords_are_tokens()
    ensures
        is_token(put_tok()),
        is_token(join_tok()),
        is_token(snapshot_end_tok()),
{
    assert forall|i: int| 0 <= i < put_tok().len() implies !is_wspace(#[trigger] put_tok()[i]) by {
        if i == 0 {
            assert(put_tok()[i] == 'P');
        } else if i == 1 {
            assert(put_tok()[i] == 'U');
        } else {
            assert(put_tok()[i] == 'T');
        }
    }
    assert forall|i: int| 0 <= i < join_tok().len() implies !is_wspace(
        #[trigger] join_tok()[i],
    ) by {
        if i == 0 {
            assert(join_tok()[i] == 'J');
        } else if i == 1 {
            assert(join_tok()[i] == 'O');
        } else if i == 2 {
            assert(join_tok()[i] == 'I');
        } else {
            assert(join_tok()[i] == 'N');
        }
    }
    assert forall|i: int| 0 <= i < snapshot_end_tok().len() implies !is_wspace(
        #[trigger] snapshot_end_tok()[i],
    ) by {
        let c = snapshot_end_tok()[i];
        if i == 0 {
            assert(c == 'S');
        } else if i == 1 {
            assert(c == 'N');
        } else if i == 2 {
            assert(c == 'A');
        } else if i == 3 {
            assert(c == 'P');
        } else if i == 4 {
            assert(c == 'S');
        } else if i == 5 {
            assert(c == 'H');
        } else if i == 6 {
            assert(c == 'O');
        } else if i == 7 {
            assert(c == 'T');
        } else if i == 8 {
            assert(c == '_');
        } else if i == 9 {
            assert(c == 'E');
        } else if i == 10 {
            assert(c == 'N');
        } else {
            assert(c == 'D');
        }
    }
}

/// Splitting a keyword line `kw tok1 .. \n` built from tokens yields
/// exactly those tokens. Worker shared by the per-shape lemmas: the text
/// `t ++ ' ' ++ rest` with `t` a token contributes `t` and goes on.
proof fn lemma_toks_token_space(t: Seq<char>, rest: Seq<char>)
    requires
        is_token(t),
    ensures
        toks(t + (seq![' '] + rest), seq![]) == seq![t] + toks(rest, seq![]),
{
    assert(Seq::<char>::empty() =~= seq![]);
    assert(seq![] + t =~= t);
    lemma_toks_nonws(t, seq![' '] + rest, seq![]);
    let w = seq![' '] + rest;
    assert(w.len() > 0);
    assert(w[0] == ' ');
    assert(is_wspace(' '));
    assert(w.drop_first() =~= rest);
    assert(toks(w, t) == flush(t) + toks(rest, seq![]));
    assert(flush(t) =~= seq![t]);
}

/// The text `t ++ '\n'` with `t` a token contributes `t` and ends.
proof fn lemma_toks_token_newline(t: Seq<char>)
    requires
        is_token(t),
    ensures
        toks(t + seq!['\n'], seq![]) == seq![t],
{
    assert(Seq::<char>::empty() =~= seq![]);
    assert(seq![] + t =~= t);
    lemma_toks_nonws(t, seq!['\n'], seq![]);
    let w = seq!['\n'];
    assert(w[0] == '\n');
    assert(is_wspace('\n'));
    assert(w.drop_first() =~= Seq::<char>::empty());
    assert(toks(w, t) == flush(t) + toks(seq![], seq![]));
    assert(toks(seq![], seq![]) =~= Seq::<Seq<char>>::empty());
    assert(flush(t) + toks(seq![], seq![]) =~= seq![t]);
}

/// The tokens of a `PUT` line are exactly `PUT`, the key and the value.
pub proof fn lemma_tokens_put_line(key: Seq<char>, value: Seq<char>)
    requires
        is_token(key),
        is_token(value),
    ensures
        tokens(put_line(key, value)) == seq![put_tok(), key, value],
{
    lemma_keywords_are_tokens();
    let tail_v = value + seq!['\n'];
    let tail_k = key + (seq![' '] + tail_v);
    assert(put_line(key, value) =~= put_tok() + (seq![' '] + tail_k));
    lemma_toks_token_space(put_tok(), tail_k);
    lemma_toks_token_space(key, tail_v);
    lemma_toks_token_newline(value);
    assert(tokens(put_line(key, value)) == seq![put_tok()] + (seq![key] + seq![value]));
    assert(seq![put_tok()] + (seq![key] + seq![value]) =~= seq![put_tok(), key, value]);
}

/// The tokens of a `JOIN` line are exactly `JOIN` and the address.
pub proof fn lemma_tokens_join_line(replica_addr: Seq<char>)
    requires
        is_token(replica_addr),
    ensures
        tokens(join_line(replica_addr)) == seq![join_tok(), replica_addr],
{
    lemma_keywords_are_tokens();
    let tail = replica_addr + seq!['\n'];
    assert(join_line(replica_addr) =~= join_tok() + (seq![' '] + tail));
    lemma_toks_token_space(join_tok(), tail);
    lemma_toks_token_newline(replica_addr);
    assert(tokens(join_line(replica_addr)) == seq![join_tok()] + seq![replica_addr]);
    assert(seq![join_tok()] + seq![replica_addr] =~= seq![join_tok(), replica_addr]);
}

/// The tokens of the `SNAPSHOT_END` line are exactly the keyword.
pub proof fn lemma_tokens_snapshot_end_line()
    ensures
        tokens(snapshot_end_line()) == seq![snapshot_end_tok()],
{
    lemma_keywords_are_tokens();
    lemma_toks_token_newline(snapshot_end_tok());
}

/// Round trip: every well-formed message other than a snapshot parses
/// back, unchanged, from its own wire text.
pub proof fn lemma_parse_format(m: MessageView)
    requires
        wf_message(m),
        !(m is Snapshot),
    ensures
        parse_spec(format_spec(m)) == Some(m),
{
    lemma_keywords_are_tokens();
    match m {
        MessageView::Put { key, value } => {
            lemma_tokens_put_line(key, value);
        },
        MessageView::Join { replica_addr } => {
            lemma_tokens_join_line(replica_addr);
            assert(join_tok().len() != put_tok().len());
        },
        MessageView::Snapshot { .. } => {
        },
        MessageView::SnapshotEnd => {
            lemma_tokens_snapshot_end_line();
        },
    }
}

/// `parse` never returns a `Snapshot`: on the wire a snapshot exists
/// only as its constituent `PUT` and `SNAPSHOT_END` lines.
pub proof fn lemma_parse_never_snapshot(s: Seq<char>)
    ensures
        !(parse_spec(s) matches Some(mv) && mv is Snapshot),
{
}

/// The `PUT` lines of a snapshot, in entry order.
pub open spec fn put_lines(entries: Seq<(Seq<char>, Seq<char>)>) -> Seq<char>
    decreases entries.len(),
{
    if entries.len() == 0 {
        Seq::<char>::empty()
    } else {
        put_line(entries[0].0, entries[0].1) + put_lines(entries.drop_first())
    }
}

/// A snapshot's wire text is exactly the wire texts of its constituent
/// `Put` messages, in order, followed by that of `SnapshotEnd`.
pub proof fn lemma_snapshot_text_decomposes(entries: Seq<(Seq<char>, Seq<char>)>)
    ensures
        snapshot_text(entries) == put_lines(entries) + snapshot_end_line(),
    decreases entries.len(),
{
    if entries.len() == 0 {
        assert(put_lines(entries) + snapshot_end_line() =~= snapshot_end_line());
    } else {
        lemma_snapshot_text_decomposes(entries.drop_first());
        assert(put_line(entries[0].0, entries[0].1) + (put_lines(entries.drop_first())
            + snapshot_end_line()) =~= put_lines(entries) + snapshot_end_line());
    }
}

} // verus!
