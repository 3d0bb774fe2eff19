//! The quoting-aware tokenizer: turns one input line into word tokens,
//! honoring single quotes, double quotes and backslash escapes.
//!
//! The behaviour is given by a small character-at-a-time state machine
//! (`tok_step`), folded over the line (`tok_run`) and flushed at end of input
//! (`spec_tokenize`). A line that ends inside a quote or right after a
//! backslash is not rejected: the pending accumulator is flushed as a final
//! literal token and a pending backslash is dropped.

use vstd::prelude::*;
use crate::strutil::string_of_chars;

verus! {

/// Tokenizer mode: outside quotes, right after an outside-quote backslash,
/// inside single quotes, inside double quotes, or right after a backslash
/// inside double quotes.
#[derive(Clone, Copy, PartialEq, Eq, Structural)]
pub enum TokMode {
    Normal,
    NormalEscape,
    Single,
    Double,
    DoubleEscape,
}

/// Full tokenizer state: current mode, the token accumulated so far, and the
/// tokens already emitted.
#[verifier::ext_equal]
pub struct TokState {
    pub mode: TokMode,
    pub acc: Seq<char>,
    pub toks: Seq<Seq<char>>,
}

pub open spec fn tok_init() -> TokState {
    TokState { mode: TokMode::Normal, acc: Seq::empty(), toks: Seq::empty() }
}

/// Whether a backslash inside double quotes escapes `c` (the backslash is
/// dropped and `c` kept); otherwise both characters are kept.
pub open spec fn dq_escapable(c: char) -> bool {
    c == '\\' || c == '"' || c == '$' || c == '\n'
}

/// One step of the tokenizer on character `c`.
pub open spec fn tok_step(st: TokState, c: char) -> TokState {
    match st.mode {
        TokMode::Normal => {
            if c == ' ' {
                if st.acc.len() > 0 {
                    TokState { mode: TokMode::Normal, acc: Seq::empty(), toks: st.toks.push(st.acc) }
                } else {
                    st
                }
            } else if c == '\'' {
                TokState { mode: TokMode::Single, ..st }
            } else if c == '"' {
                TokState { mode: TokMode::Double, ..st }
            } else if c == '\\' {
                TokState { mode: TokMode::NormalEscape, ..st }
            } else {
                TokState { acc: st.acc.push(c), ..st }
            }
        },
        TokMode::NormalEscape => TokState { mode: TokMode::Normal, acc: st.acc.push(c), ..st },
        TokMode::Single => {
            if c == '\'' {
                TokState { mode: TokMode::Normal, ..st }
            } else {
                TokState { acc: st.acc.push(c), ..st }
            }
        },
        TokMode::Double => {
            if c == '"' {
                TokState { mode: TokMode::Normal, ..st }
            } else if c == '\\' {
                TokState { mode: TokMode::DoubleEscape, ..st }
            } else {
                TokState { acc: st.acc.push(c), ..st }
            }
        },
        TokMode::DoubleEscape => {
            if dq_escapable(c) {
                TokState { mode: TokMode::Double, acc: st.acc.push(c), ..st }
            } else {
                TokState { mode: TokMode::Double, acc: st.acc.push('\\').push(c), ..st }
            }
        },
    }
}

/// The tokenizer folded over a whole character sequence.
pub open spec fn tok_run(st: TokState, s: Seq<char>) -> TokState
    decreases s.len(),
{
    if s.len() == 0 {
        st
    } else {
        tok_run(tok_step(st, s[0]), s.drop_first())
    }
}

/// End of input: a non-empty accumulator becomes a final token.
pub open spec fn tok_finish(st: TokState) -> Seq<Seq<char>> {
    if st.acc.len() > 0 {
        st.toks.push(st.acc)
    } else {
        st.toks
    }
}

/// The tokens of one input line.
pub open spec fn spec_tokenize(s: Seq<char>) -> Seq<Seq<char>> {
    tok_finish(tok_run(tok_init(), s))
}

/// The views of a vector of strings.
pub open spec fn views(v: Seq<String>) -> Seq<Seq<char>> {
    v.map_values(|s: String| s@)
}

/// Folding over one more character at the right end.
pub proof fn lemma_tok_run_snoc(st: TokState, s: Seq<char>, c: char)
    ensures
        tok_run(st, s.push(c)) == tok_step(tok_run(st, s), c),
    decreases s.len(),
{
    if s.len() == 0 {
        assert(s.push(c)[0] == c);
        assert(s.push(c).drop_first() =~= Seq::<char>::empty());
        assert(tok_run(st, s.push(c)) == tok_run(tok_step(st, c), Seq::<char>::empty()));
        assert(tok_run(st, s) == st);
    } else {
        assert(s.push(c)[0] == s[0]);
        assert(s.push(c).drop_first() =~= s.drop_first().push(c));
        assert(tok_run(st, s.push(c)) == tok_run(tok_step(st, s[0]), s.drop_first().push(c)));
        lemma_tok_run_snoc(tok_step(st, s[0]), s.drop_first(), c);
        assert(tok_run(st, s) == tok_run(tok_step(st, s[0]), s.drop_first()));
    }
}

/// Turns a raw input line into its word tokens, with quoting and escaping
/// already resolved: quote characters themselves never appear in a token.
pub fn tokenize(line: &str) -> (r: Vec<String>)
    ensures
        views(r@) == spec_tokenize(line@),
{
    let len = line.unicode_len();
    let mut mode = TokMode::Normal;
    let mut acc: Vec<char> = Vec::new();
    let mut toks: Vec<String> = Vec::new();
    let ghost mut emitted: Seq<Seq<char>> = Seq::empty();
    let mut i: usize = 0;
    while i < len
        invariant
            i <= len,
            len == line@.len(),
            emitted == views(toks@),
            tok_run(tok_init(), line@.take(i as int)) == (TokState {
                mode: mode,
                acc: acc@,
                toks: emitted,
            }),
        decreases len - i,
    {
        let c = line.get_char(i);
        proof {
            assert(line@.take(i + 1 as int) =~= line@.take(i as int).push(c));
            lemma_tok_run_snoc(tok_init(), line@.take(i as int), c);
        }
        match mode {
            TokMode::Normal => {
                if c == ' ' {
                    if acc.len() > 0 {
                        let t = string_of_chars(&acc);
                        toks.push(t);
                        acc = Vec::new();
                        proof {
                            emitted = emitted.push(t@);
                            assert(views(toks@) =~= emitted);
                        }
                    }
                } else if c == '\'' {
                    mode = TokMode::Single;
                } else if c == '"' {
                    mode = TokMode::Double;
                } else if c == '\\' {
                    mode = TokMode::NormalEscape;
                } else {
                    acc.push(c);
                }
            },
            TokMode::NormalEscape => {
                mode = TokMode::Normal;
                acc.push(c);
            },
            TokMode::Single => {
                if c == '\'' {
                    mode = TokMode::Normal;
                } else {
                    acc.push(c);
                }
            },
            TokMode::Double => {
                if c == '"' {
                    mode = TokMode::Normal;
                } else if c == '\\' {
                    mode = TokMode::DoubleEscape;
                } else {
                    acc.push(c);
                }
            },
            TokMode::DoubleEscape => {
                mode = TokMode::Double;
                if c == '\\' || c == '"' || c == '$' || c == '\n' {
                    acc.push(c);
                } else {
                    acc.push('\\');
                    acc.push(c);
                }
            },
        }
        i = i + 1;
    }
    proof {
        assert(line@.take(len as int) =~= line@);
    }
    if acc.len() > 0 {
        let t = string_of_chars(&acc);
        toks.push(t);
        proof {
            assert(views(toks@) =~= emitted.push(t@));
        }
    }
    toks
}


/// A line that uses no quoting: no quote characters and no backslash.
pub open spec fn no_quoting(s: Seq<char>) -> bool {
    forall|i: int| 0 <= i < s.len() ==> s[i] != '\'' && s[i] != '"' && s[i] != '\\'
}

/// A word as the tokenizer emits it from an unquoted line: non-empty,
/// without spaces and without quoting characters.
pub open spec fn plain_word(t: Seq<char>) -> bool {
    t.len() > 0 && forall|i: int|
        0 <= i < t.len() ==> t[i] != ' ' && t[i] != '\'' && t[i] != '"' && t[i] != '\\'
}

/// A partial word: like `plain_word` but possibly empty.
pub open spec fn plain_acc(t: Seq<char>) -> bool {
    forall|i: int| 0 <= i < t.len() ==> t[i] != ' ' && t[i] != '\'' && t[i] != '"' && t[i] != '\\'
}

/// Plain word splitting on spaces: what the tokenizer does to a line with
/// no quoting.
pub open spec fn ws_run(acc: Seq<char>, toks: Seq<Seq<char>>, s: Seq<char>) -> (Seq<char>, Seq<
    Seq<char>,
>)
    decreases s.len(),
{
    if s.len() == 0 {
        (acc, toks)
    } else if s[0] == ' ' {
        if acc.len() > 0 {
            ws_run(Seq::empty(), toks.push(acc), s.drop_first())
        } else {
            ws_run(acc, toks, s.drop_first())
        }
    } else {
        ws_run(acc.push(s[0]), toks, s.drop_first())
    }
}

pub open spec fn ws_finish(p: (Seq<char>, Seq<Seq<char>>)) -> Seq<Seq<char>> {
    if p.0.len() > 0 {
        p.1.push(p.0)
    } else {
        p.1
    }
}

/// On an unquoted line the tokenizer never leaves its outside-quote mode and
/// acts exactly as the word splitter.
proof fn lemma_plain_run(st: TokState, s: Seq<char>)
    requires
        st.mode == TokMode::Normal,
        no_quoting(s),
    ensures
        tok_run(st, s).mode == TokMode::Normal,
        (tok_run(st, s).acc, tok_run(st, s).toks) == ws_run(st.acc, st.toks, s),
    decreases s.len(),
{
    if s.len() > 0 {
        assert forall|i: int|
            0 <= i < s.drop_first().len() implies s.drop_first()[i] != '\''
            && s.drop_first()[i] != '"' && s.drop_first()[i] != '\\' by {
            assert(s.drop_first()[i] == s[i + 1]);
        }
        lemma_plain_run(tok_step(st, s[0]), s.drop_first());
    }
}

/// The word splitter over a concatenation: run the first part, then the
/// second from where it left off.
proof fn lemma_ws_append(acc: Seq<char>, toks: Seq<Seq<char>>, a: Seq<char>, b: Seq<char>)
    ensures
        ws_run(acc, toks, a + b) == ws_run(ws_run(acc, toks, a).0, ws_run(acc, toks, a).1, b),
    decreases a.len(),
{
    if a.len() == 0 {
        assert(a + b =~= b);
    } else {
        assert((a + b)[0] == a[0]);
        assert((a + b).drop_first() =~= a.drop_first() + b);
        if a[0] == ' ' {
            if acc.len() > 0 {
                lemma_ws_append(Seq::empty(), toks.push(acc), a.drop_first(), b);
            } else {
                lemma_ws_append(acc, toks, a.drop_first(), b);
            }
        } else {
            lemma_ws_append(acc.push(a[0]), toks, a.drop_first(), b);
        }
    }
}

/// A space-free stretch accumulates whole, emitting nothing.
proof fn lemma_ws_word(acc: Seq<char>, toks: Seq<Seq<char>>, w: Seq<char>)
    requires
        plain_acc(w),
    ensures
        ws_run(acc, toks, w) == (acc + w, toks),
    decreases w.len(),
{
    if w.len() == 0 {
        assert(acc + w =~= acc);
    } else {
        assert forall|i: int|
            0 <= i < w.drop_first().len() implies w.drop_first()[i] != ' ' && w.drop_first()[i]
            != '\'' && w.drop_first()[i] != '"' && w.drop_first()[i] != '\\' by {
            assert(w.drop_first()[i] == w[i + 1]);
        }
        lemma_ws_word(acc.push(w[0]), toks, w.drop_first());
        assert(acc.push(w[0]) + w.drop_first() =~= acc + w);
    }
}

/// Splitting a run of the word splitter only ever emits plain words and
/// keeps a plain partial word.
proof fn lemma_ws_words(acc: Seq<char>, toks: Seq<Seq<char>>, s: Seq<char>)
    requires
        no_quoting(s),
        plain_acc(acc),
        forall|i: int| 0 <= i < toks.len() ==> #[trigger] plain_word(toks[i]),
    ensures
        plain_acc(ws_run(acc, toks, s).0),
        forall|i: int|
            0 <= i < ws_run(acc, toks, s).1.len() ==> #[trigger] plain_word(ws_run(acc, toks, s).1[i]),
    decreases s.len(),
{
    if s.len() > 0 {
        assert forall|i: int|
            0 <= i < s.drop_first().len() implies s.drop_first()[i] != '\''
            && s.drop_first()[i] != '"' && s.drop_first()[i] != '\\' by {
            assert(s.drop_first()[i] == s[i + 1]);
        }
        if s[0] == ' ' && acc.len() > 0 {
            assert forall|i: int|
                0 <= i < toks.push(acc).len() implies #[trigger] plain_word(toks.push(acc)[i]) by {
                if i < toks.len() {
                    assert(toks.push(acc)[i] == toks[i]);
                } else {
                    assert(toks.push(acc)[i] == acc);
                }
            }
            lemma_ws_words(Seq::empty(), toks.push(acc), s.drop_first());
        } else if s[0] == ' ' {
            lemma_ws_words(acc, toks, s.drop_first());
        } else {
            assert forall|i: int|
                0 <= i < acc.push(s[0]).len() implies acc.push(s[0])[i] != ' ' && acc.push(
                s[0],
            )[i] != '\'' && acc.push(s[0])[i] != '"' && acc.push(s[0])[i] != '\\' by {
                if i < acc.len() {
                    assert(acc.push(s[0])[i] == acc[i]);
                } else {
                    assert(acc.push(s[0])[i] == s[0]);
                }
            }
            lemma_ws_words(acc.push(s[0]), toks, s.drop_first());
        }
    }
}

/// Rejoining plain words with single spaces and splitting again gives the
/// words back, after whatever was already emitted.
proof fn lemma_rejoin(toks0: Seq<Seq<char>>, ts: Seq<Seq<char>>)
    requires
        ts.len() > 0,
        forall|i: int| 0 <= i < ts.len() ==> #[trigger] plain_word(ts[i]),
    ensures
        ws_finish(ws_run(Seq::empty(), toks0, crate::builtins::join_spaced(ts))) == toks0 + ts,
    decreases ts.len(),
{
    let join = crate::builtins::join_spaced(ts);
    assert(plain_word(ts[0]));
    if ts.len() == 1 {
        lemma_ws_word(Seq::empty(), toks0, ts[0]);
        assert(Seq::<char>::empty() + ts[0] =~= ts[0]);
        assert(toks0.push(ts[0]) =~= toks0 + ts);
    } else {
        let head = ts[0] + seq![' '];
        let rest = ts.drop_first();
        assert(join == head + crate::builtins::join_spaced(rest));
        lemma_ws_word(Seq::empty(), toks0, ts[0]);
        assert(Seq::<char>::empty() + ts[0] =~= ts[0]);
        lemma_ws_append(Seq::empty(), toks0, ts[0], seq![' ']);
        assert(seq![' '][0] == ' ');
        assert(seq![' '].drop_first() =~= Seq::<char>::empty());
        assert(ws_run(Seq::<char>::empty(), toks0.push(ts[0]), Seq::<char>::empty()) == (
            Seq::<char>::empty(),
            toks0.push(ts[0]),
        ));
        assert(ws_run(ts[0], toks0, seq![' ']) == ws_run(
            Seq::<char>::empty(),
            toks0.push(ts[0]),
            seq![' '].drop_first(),
        ));
        assert(ws_run(ts[0], toks0, seq![' ']) == (Seq::<char>::empty(), toks0.push(ts[0])));
        lemma_ws_append(Seq::empty(), toks0, head, crate::builtins::join_spaced(rest));
        assert(ws_run(Seq::empty(), toks0, head) == ws_run(
            ws_run(Seq::empty(), toks0, ts[0]).0,
            ws_run(Seq::empty(), toks0, ts[0]).1,
            seq![' '],
        )) by {
            lemma_ws_append(Seq::empty(), toks0, ts[0], seq![' ']);
            assert(head =~= ts[0] + seq![' ']);
        }
        assert forall|i: int| 0 <= i < rest.len() implies #[trigger] plain_word(rest[i]) by {
            assert(rest[i] == ts[i + 1]);
        }
        lemma_rejoin(toks0.push(ts[0]), rest);
        assert(toks0.push(ts[0]) + rest =~= toks0 + ts);
    }
}

/// Joining plain words with spaces yields a line with no quoting.
proof fn lemma_join_no_quoting(ts: Seq<Seq<char>>)
    requires
        forall|i: int| 0 <= i < ts.len() ==> #[trigger] plain_word(ts[i]),
    ensures
        no_quoting(crate::builtins::join_spaced(ts)),
    decreases ts.len(),
{
    let join = crate::builtins::join_spaced(ts);
    if ts.len() == 0 {
    } else if ts.len() == 1 {
        assert(plain_word(ts[0]));
        assert(join == ts[0]);
    } else {
        let rest = ts.drop_first();
        assert forall|i: int| 0 <= i < rest.len() implies #[trigger] plain_word(rest[i]) by {
            assert(rest[i] == ts[i + 1]);
        }
        lemma_join_no_quoting(rest);
        assert(plain_word(ts[0]));
        let head = ts[0] + seq![' '];
        let tail = crate::builtins::join_spaced(rest);
        assert(join == head + tail);
        assert forall|i: int|
            0 <= i < join.len() implies join[i] != '\'' && join[i] != '"' && join[i]
            != '\\' by {
            if i < ts[0].len() {
                assert(join[i] == ts[0][i]);
            } else if i == ts[0].len() {
                assert(join[i] == ' ');
            } else {
                assert(join[i] == tail[i - head.len()]);
            }
        }
    }
}

/// Tokenizing is idempotent on lines without quoting: joining the tokens
/// with single spaces and tokenizing again gives the same tokens.
pub proof fn tokenize_idempotent_plain(s: Seq<char>)
    requires
        no_quoting(s),
    ensures
        spec_tokenize(crate::builtins::join_spaced(spec_tokenize(s))) == spec_tokenize(s),
{
    let init = tok_init();
    lemma_plain_run(init, s);
    lemma_ws_words(Seq::empty(), Seq::empty(), s);
    let p = ws_run(Seq::empty(), Seq::empty(), s);
    let toks = ws_finish(p);
    assert(spec_tokenize(s) == toks);
    assert forall|i: int| 0 <= i < toks.len() implies #[trigger] plain_word(toks[i]) by {
        if i < p.1.len() {
            assert(toks[i] == p.1[i]);
        } else {
            assert(toks[i] == p.0);
        }
    }
    if toks.len() == 0 {
        assert(crate::builtins::join_spaced(toks) == Seq::<char>::empty());
        assert(tok_run(init, Seq::<char>::empty()) == init);
        assert(spec_tokenize(crate::builtins::join_spaced(toks)) =~= toks);
    } else {
        let join = crate::builtins::join_spaced(toks);
        lemma_join_no_quoting(toks);
        lemma_plain_run(init, join);
        lemma_rejoin(Seq::empty(), toks);
        assert(Seq::<Seq<char>>::empty() + toks =~= toks);
    }
}


/// Emitted tokens are never empty: a token is only cut when something has
/// accumulated, so an empty line yields no tokens at all, never an empty
/// one.
proof fn lemma_run_tokens_nonempty(st: TokState, s: Seq<char>)
    requires
        forall|i: int| 0 <= i < st.toks.len() ==> (#[trigger] st.toks[i]).len() > 0,
    ensures
        forall|i: int|
            0 <= i < tok_run(st, s).toks.len() ==> (#[trigger] tok_run(st, s).toks[i]).len() > 0,
    decreases s.len(),
{
    if s.len() > 0 {
        let st2 = tok_step(st, s[0]);
        assert forall|i: int| 0 <= i < st2.toks.len() implies (#[trigger] st2.toks[i]).len()
            > 0 by {
            if i < st.toks.len() {
                assert(st2.toks[i] == st.toks[i]);
            } else {
                assert(st2.toks[i] == st.acc);
            }
        }
        lemma_run_tokens_nonempty(st2, s.drop_first());
    }
}

/// No token of any line is empty.
pub proof fn tokenize_no_empty_tokens(s: Seq<char>)
    ensures
        forall|i: int|
            0 <= i < spec_tokenize(s).len() ==> (#[trigger] spec_tokenize(s)[i]).len() > 0,
{
    lemma_run_tokens_nonempty(tok_init(), s);
    let st = tok_run(tok_init(), s);
    assert forall|i: int|
        0 <= i < spec_tokenize(s).len() implies (#[trigger] spec_tokenize(s)[i]).len() > 0 by {
        if i < st.toks.len() {
            assert(spec_tokenize(s)[i] == st.toks[i]);
        } else {
            assert(spec_tokenize(s)[i] == st.acc);
        }
    }
}

} // verus!
