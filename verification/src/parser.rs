//! The redirection-aware command parser: consumes a token sequence, extracts
//! redirection operators with their file targets, and yields the argument
//! vector plus at most one redirection per stream.
//!
//! Recognized operator tokens: `>` and `1>` (stdout, truncate), `>>` and
//! `1>>` (stdout, append), `2>` (stderr, truncate), `2>>` (stderr, append).
//! Each operator consumes the token after it as the file path; an operator at
//! the very end, with no path following, records nothing. Operators may stand
//! anywhere, even before the command name; for one stream the last operator
//! parsed wins.

use vstd::prelude::*;
use crate::tokenizer::views;

verus! {

/// How a redirection target file is opened: discard prior contents, or keep
/// them and write at the end.
#[derive(Clone, Copy, PartialEq, Eq, Structural, Debug)]
pub enum RedirMode {
    Truncate,
    Append,
}

/// Which output stream a redirection rebinds.
#[derive(Clone, Copy, PartialEq, Eq, Structural, Debug)]
pub enum RedirStream {
    Stdout,
    Stderr,
}

/// A parsed redirection: the target path and the open mode. The stream it
/// applies to is given by which `CommandContext` field holds it.
pub struct RedirectionSpec {
    pub path: String,
    pub mode: RedirMode,
}

/// One pipeline stage's parsed command: the argument vector (index 0 is the
/// command name) and the optional redirection of each output stream.
pub struct CommandContext {
    pub argv: Vec<String>,
    pub stdout_redir: Option<RedirectionSpec>,
    pub stderr_redir: Option<RedirectionSpec>,
}

/// The mathematical model of a parsed command.
#[verifier::ext_equal]
pub struct CtxModel {
    pub argv: Seq<Seq<char>>,
    pub out: Option<(Seq<char>, RedirMode)>,
    pub err: Option<(Seq<char>, RedirMode)>,
}

impl CommandContext {
    /// The model this context denotes.
    pub open spec fn model(&self) -> CtxModel {
        CtxModel {
            argv: views(self.argv@),
            out: match self.stdout_redir {
                Some(ref r) => Some((r.path@, r.mode)),
                None => None,
            },
            err: match self.stderr_redir {
                Some(ref r) => Some((r.path@, r.mode)),
                None => None,
            },
        }
    }
}

pub open spec fn empty_model() -> CtxModel {
    CtxModel { argv: Seq::empty(), out: None, err: None }
}

/// Which redirection operator a token is, if any.
pub open spec fn spec_op_of(t: Seq<char>) -> Option<(RedirStream, RedirMode)> {
    if t =~= seq!['>'] || t =~= seq!['1', '>'] {
        Some((RedirStream::Stdout, RedirMode::Truncate))
    } else if t =~= seq!['>', '>'] || t =~= seq!['1', '>', '>'] {
        Some((RedirStream::Stdout, RedirMode::Append))
    } else if t =~= seq!['2', '>'] {
        Some((RedirStream::Stderr, RedirMode::Truncate))
    } else if t =~= seq!['2', '>', '>'] {
        Some((RedirStream::Stderr, RedirMode::Append))
    } else {
        None
    }
}

pub open spec fn model_with_redir(
    m: CtxModel,
    stream: RedirStream,
    path: Seq<char>,
    mode: RedirMode,
) -> CtxModel {
    match stream {
        RedirStream::Stdout => CtxModel { out: Some((path, mode)), ..m },
        RedirStream::Stderr => CtxModel { err: Some((path, mode)), ..m },
    }
}

/// Left-to-right scan: `m` is what the tokens before `ts` produced.
pub open spec fn parse_acc(m: CtxModel, ts: Seq<Seq<char>>) -> CtxModel
    decreases ts.len(),
{
    if ts.len() == 0 {
        m
    } else {
        match spec_op_of(ts[0]) {
            Some((stream, mode)) => {
                if ts.len() >= 2 {
                    parse_acc(model_with_redir(m, stream, ts[1], mode), ts.skip(2))
                } else {
                    m
                }
            },
            None => parse_acc(CtxModel { argv: m.argv.push(ts[0]), ..m }, ts.skip(1)),
        }
    }
}

/// The parsed command a token sequence denotes.
pub open spec fn spec_parse(ts: Seq<Seq<char>>) -> CtxModel {
    parse_acc(empty_model(), ts)
}

/// Classifies one token as a redirection operator.
fn op_of(t: &str) -> (r: Option<(RedirStream, RedirMode)>)
    ensures
        r == spec_op_of(t@),
{
    let len = t.unicode_len();
    if len == 2 && t.get_char(0) == '>' && t.get_char(1) == '>' {
        proof { assert(t@ =~= seq!['>', '>']); }
        Some((RedirStream::Stdout, RedirMode::Append))
    } else if len == 1 && t.get_char(0) == '>' {
        proof { assert(t@ =~= seq!['>']); }
        Some((RedirStream::Stdout, RedirMode::Truncate))
    } else if len == 2 && t.get_char(0) == '1' && t.get_char(1) == '>' {
        proof { assert(t@ =~= seq!['1', '>']); }
        Some((RedirStream::Stdout, RedirMode::Truncate))
    } else if len == 3 && t.get_char(0) == '1' && t.get_char(1) == '>' && t.get_char(2) == '>' {
        proof { assert(t@ =~= seq!['1', '>', '>']); }
        Some((RedirStream::Stdout, RedirMode::Append))
    } else if len == 2 && t.get_char(0) == '2' && t.get_char(1) == '>' {
        proof { assert(t@ =~= seq!['2', '>']); }
        Some((RedirStream::Stderr, RedirMode::Truncate))
    } else if len == 3 && t.get_char(0) == '2' && t.get_char(1) == '>' && t.get_char(2) == '>' {
        proof { assert(t@ =~= seq!['2', '>', '>']); }
        Some((RedirStream::Stderr, RedirMode::Append))
    } else {
        proof {
            assert(!(t@ =~= seq!['>']));
            assert(!(t@ =~= seq!['1', '>']));
            assert(!(t@ =~= seq!['>', '>']));
            assert(!(t@ =~= seq!['1', '>', '>']));
            assert(!(t@ =~= seq!['2', '>']));
            assert(!(t@ =~= seq!['2', '>', '>']));
        }
        None
    }
}

/// Parses a token sequence into a command context: non-operator tokens become
/// argv in order; each operator token takes the following token as its file
/// path, the last operator per stream winning.
pub fn parse(tokens: &Vec<String>) -> (r: CommandContext)
    ensures
        r.model() == spec_parse(views(tokens@)),
{
    let ghost all: Seq<Seq<char>> = views(tokens@);
    let mut ctx = CommandContext { argv: Vec::new(), stdout_redir: None, stderr_redir: None };
    let mut i: usize = 0;
    proof {
        assert(ctx.model() =~= empty_model());
        assert(all.skip(0) =~= all);
    }
    while i < tokens.len()
        invariant
            i <= tokens.len(),
            all == views(tokens@),
            spec_parse(all) == parse_acc(ctx.model(), all.skip(i as int)),
        decreases tokens.len() - i,
    {
        let ghost rest = all.skip(i as int);
        proof {
            assert(rest[0] == all[i as int]);
            assert(all[i as int] == tokens@[i as int]@);
        }
        match op_of(tokens[i].as_str()) {
            Some((stream, mode)) => {
                if i + 1 < tokens.len() {
                    let path = tokens[i + 1].clone();
                    proof {
                        assert(rest[1] == all[i + 1]);
                        assert(all[i + 1] == tokens@[i + 1]@);
                    }
                    let spec = RedirectionSpec { path, mode };
                    let ghost before = ctx.model();
                    match stream {
                        RedirStream::Stdout => {
                            ctx.stdout_redir = Some(spec);
                        },
                        RedirStream::Stderr => {
                            ctx.stderr_redir = Some(spec);
                        },
                    }
                    proof {
                        assert(ctx.model() =~= model_with_redir(before, stream, rest[1], mode));
                        assert(rest.skip(2) =~= all.skip(i + 2));
                    }
                    i = i + 2;
                } else {
                    proof {
                        assert(rest.len() == 1);
                    }
                    i = i + 1;
                }
            },
            None => {
                let arg = tokens[i].clone();
                let ghost before = ctx.model();
                ctx.argv.push(arg);
                proof {
                    assert(ctx.model() =~= (CtxModel { argv: before.argv.push(rest[0]), ..before }));
                    assert(rest.skip(1) =~= all.skip(i + 1));
                }
                i = i + 1;
            },
        }
    }
    proof {
        assert(all.skip(tokens@.len() as int) =~= Seq::<Seq<char>>::empty());
    }
    ctx
}

} // verus!
