//! The pipeline layer: splitting an input line into stages on the pipe
//! character, planning what each stage does, and the byte-stream chaining
//! model.
//!
//! Splitting is textual, not quote-aware. Each stage substring is trimmed of
//! surrounding spaces. A stage that names a builtin is executed in process,
//! its text computed here; any other stage is an external spawn performed
//! outside the library. A builtin stage that is not the last has its text
//! captured and handed to the next stage as input; the text itself is the
//! same either way.

use vstd::prelude::*;
use crate::builtins::{
    spec_builtin_of, Builtin, builtin_of, spec_echo_output, echo_output, spec_type_output,
    type_output, pwd_output, spec_cd_target, cd_target, spec_cd_failure, cd_failure_message,
};
use crate::parser::CommandContext;
use crate::strutil::string_of_chars;
use crate::tokenizer::views;

verus! {

/// Splitting on `|`: `acc` is the segment being read, `segs` the segments
/// already cut. Every pipe cuts, so `n` pipes give `n + 1` segments, empty
/// ones included.
pub open spec fn split_pipe_acc(acc: Seq<char>, segs: Seq<Seq<char>>, s: Seq<char>) -> Seq<
    Seq<char>,
>
    decreases s.len(),
{
    if s.len() == 0 {
        segs.push(acc)
    } else if s[0] == '|' {
        split_pipe_acc(Seq::empty(), segs.push(acc), s.drop_first())
    } else {
        split_pipe_acc(acc.push(s[0]), segs, s.drop_first())
    }
}

/// The raw (untrimmed) stage substrings of a line.
pub open spec fn spec_split_raw(s: Seq<char>) -> Seq<Seq<char>> {
    split_pipe_acc(Seq::empty(), Seq::empty(), s)
}

/// The characters with surrounding spaces removed.
pub open spec fn spec_trim(s: Seq<char>) -> Seq<char>
    decreases s.len(),
{
    if s.len() == 0 {
        s
    } else if s[0] == ' ' {
        spec_trim(s.drop_first())
    } else if s[s.len() - 1] == ' ' {
        spec_trim(s.drop_last())
    } else {
        s
    }
}

/// Every element trimmed.
pub open spec fn trim_all(ts: Seq<Seq<char>>) -> Seq<Seq<char>> {
    ts.map_values(|t: Seq<char>| spec_trim(t))
}

/// The pipeline stages of a line: split on every pipe, each stage trimmed.
pub open spec fn spec_stages(s: Seq<char>) -> Seq<Seq<char>> {
    trim_all(spec_split_raw(s))
}

/// Trimming removes exactly the maximal all-space margin: when everything
/// outside `[lo, hi)` is a space and the bounds hug non-spaces, the trim is
/// that window.
proof fn lemma_trim_range(s: Seq<char>, lo: int, hi: int)
    requires
        0 <= lo <= hi <= s.len(),
        forall|i: int| 0 <= i < lo ==> s[i] == ' ',
        forall|i: int| hi <= i < s.len() ==> s[i] == ' ',
        lo < hi ==> s[lo] != ' ' && s[hi - 1] != ' ',
    ensures
        spec_trim(s) == s.subrange(lo, hi),
    decreases s.len(),
{
    if s.len() == 0 {
        assert(s.subrange(0, 0) =~= s);
    } else if s[0] == ' ' {
        if lo == hi {
            assert(forall|i: int| 0 <= i < s.drop_first().len() ==> s.drop_first()[i] == ' ');
            lemma_trim_range(s.drop_first(), 0, 0);
            assert(s.subrange(lo, hi) =~= s.drop_first().subrange(0, 0));
        } else {
            assert(lo > 0);
            lemma_trim_range(s.drop_first(), lo - 1, hi - 1);
            assert(s.subrange(lo, hi) =~= s.drop_first().subrange(lo - 1, hi - 1));
        }
    } else if s[s.len() - 1] == ' ' {
        assert(lo < hi);
        assert(hi < s.len());
        lemma_trim_range(s.drop_last(), lo, hi);
        assert(s.subrange(lo, hi) =~= s.drop_last().subrange(lo, hi));
    } else {
        assert(lo == 0);
        assert(hi == s.len());
        assert(s.subrange(0, s.len() as int) =~= s);
    }
}

/// Removes the spaces around a string.
pub fn trim_spaces(s: &str) -> (r: String)
    ensures
        r@ == spec_trim(s@),
{
    let len = s.unicode_len();
    let mut lo: usize = 0;
    while lo < len && s.get_char(lo) == ' '
        invariant
            lo <= len,
            len == s@.len(),
            forall|i: int| 0 <= i < lo ==> s@[i] == ' ',
        decreases len - lo,
    {
        lo = lo + 1;
    }
    if lo == len {
        proof {
            lemma_trim_range(s@, len as int, len as int);
            assert(s@.subrange(len as int, len as int) =~= Seq::<char>::empty());
        }
        return String::new();
    }
    let mut hi: usize = len;
    while hi > lo + 1 && s.get_char(hi - 1) == ' '
        invariant
            lo < hi <= len,
            len == s@.len(),
            s@[lo as int] != ' ',
            forall|i: int| hi <= i < len ==> s@[i] == ' ',
        decreases hi,
    {
        hi = hi - 1;
    }
    let r = s.substring_char(lo, hi);
    proof {
        assert(s@[hi - 1] != ' ');
        lemma_trim_range(s@, lo as int, hi as int);
    }
    String::from_str(r)
}

/// Splits a line into its pipeline stages: cut at every pipe character, each
/// stage trimmed of surrounding spaces.
pub fn split_pipeline(line: &str) -> (r: Vec<String>)
    ensures
        views(r@) == spec_stages(line@),
{
    let len = line.unicode_len();
    let mut acc: Vec<char> = Vec::new();
    let mut segs: Vec<String> = Vec::new();
    let ghost mut raw: Seq<Seq<char>> = Seq::empty();
    let mut i: usize = 0;
    proof {
        assert(line@.skip(0) =~= line@);
        assert(views(segs@) =~= trim_all(raw));
    }
    while i < len
        invariant
            i <= len,
            len == line@.len(),
            views(segs@) == trim_all(raw),
            spec_split_raw(line@) == split_pipe_acc(acc@, raw, line@.skip(i as int)),
        decreases len - i,
    {
        let c = line.get_char(i);
        proof {
            let rest = line@.skip(i as int);
            assert(rest[0] == line@[i as int]);
            assert(rest.drop_first() =~= line@.skip(i + 1));
        }
        if c == '|' {
            let seg = string_of_chars(&acc);
            let trimmed = trim_spaces(seg.as_str());
            let ghost prev_segs = views(segs@);
            segs.push(trimmed);
            proof {
                assert(views(segs@) =~= prev_segs.push(trimmed@));
                raw = raw.push(acc@);
                assert(trim_all(raw) =~= prev_segs.push(trimmed@));
            }
            acc = Vec::new();
        } else {
            acc.push(c);
        }
        i = i + 1;
    }
    proof {
        assert(line@.skip(len as int) =~= Seq::<char>::empty());
    }
    let seg = string_of_chars(&acc);
    let trimmed = trim_spaces(seg.as_str());
    let ghost prev_segs = views(segs@);
    segs.push(trimmed);
    proof {
        assert(views(segs@) =~= prev_segs.push(trimmed@));
        assert(trim_all(raw.push(acc@)) =~= prev_segs.push(trimmed@));
    }
    segs
}

/// What one stage asks of the surrounding process: nothing, ending the
/// session, changing directory, writing builtin text, or spawning the
/// stage's external command.
pub enum StagePlan {
    /// An empty stage, or a builtin invoked without what it needs: nothing
    /// to do.
    Skip,
    /// The `exit` builtin: the session ends.
    Exit,
    /// The `cd` builtin: enter `target`; when that fails, write
    /// `failure_message`.
    ChangeDir { target: String, failure_message: String },
    /// A text-producing builtin: `text` goes to the stage's output (captured
    /// for the next stage, or written to the terminal or redirection target
    /// when last).
    Emit { text: String },
    /// Not a builtin: spawn the stage's argv as an external process.
    External,
}

/// The second argv entry, which `type` and `cd` take as their argument.
pub open spec fn first_arg(argv: Seq<Seq<char>>) -> Option<Seq<char>> {
    if argv.len() >= 2 {
        Some(argv[1])
    } else {
        None
    }
}

/// Plans one parsed stage. `cwd` and `home` are the current working
/// directory and the home value; `resolved_query` is the search-path
/// resolution of the stage's first argument and only matters for `type`.
pub fn plan_stage(
    ctx: &CommandContext,
    cwd: &str,
    home: &str,
    resolved_query: &Option<String>,
) -> (r: StagePlan)
    ensures
        views(ctx.argv@).len() == 0 ==> r is Skip,
        views(ctx.argv@).len() > 0 ==> match spec_builtin_of(views(ctx.argv@)[0]) {
            Some(Builtin::Exit) => r is Exit,
            Some(Builtin::Echo) => (r matches StagePlan::Emit { text } && text@
                == spec_echo_output(views(ctx.argv@).skip(1))),
            Some(Builtin::Type) => {
                if views(ctx.argv@).len() >= 2 {
                    (r matches StagePlan::Emit { text } && text@ == spec_type_output(
                        views(ctx.argv@)[1],
                        match resolved_query {
                            Some(p) => Some(p@),
                            None => None,
                        },
                    ))
                } else {
                    r is Skip
                }
            },
            Some(Builtin::Pwd) => (r matches StagePlan::Emit { text } && text@ == cwd@ + "\n"@),
            Some(Builtin::Cd) => (r matches StagePlan::ChangeDir { target, failure_message }
                && target@ == spec_cd_target(first_arg(views(ctx.argv@)), home@)
                && failure_message@ == spec_cd_failure(first_arg(views(ctx.argv@)))),
            None => r is External,
        },
{
    if ctx.argv.len() == 0 {
        return StagePlan::Skip;
    }
    match builtin_of(ctx.argv[0].as_str()) {
        Some(Builtin::Exit) => StagePlan::Exit,
        Some(Builtin::Echo) => {
            let mut args: Vec<String> = Vec::new();
            let mut i: usize = 1;
            while i < ctx.argv.len()
                invariant
                    1 <= i <= ctx.argv.len(),
                    views(args@) == views(ctx.argv@).subrange(1, i as int),
                decreases ctx.argv.len() - i,
            {
                let ghost prev = views(args@);
                args.push(ctx.argv[i].clone());
                proof {
                    assert(views(args@) =~= prev.push(ctx.argv@[i as int]@));
                    assert(views(ctx.argv@).subrange(1, i + 1) =~= prev.push(
                        ctx.argv@[i as int]@,
                    ));
                }
                i = i + 1;
            }
            proof {
                assert(views(ctx.argv@).subrange(1, views(ctx.argv@).len() as int) =~= views(
                    ctx.argv@,
                ).skip(1));
            }
            let text = echo_output(&args);
            StagePlan::Emit { text }
        },
        Some(Builtin::Type) => {
            if ctx.argv.len() >= 2 {
                let text = type_output(ctx.argv[1].as_str(), resolved_query);
                StagePlan::Emit { text }
            } else {
                StagePlan::Skip
            }
        },
        Some(Builtin::Pwd) => {
            let text = pwd_output(cwd);
            StagePlan::Emit { text }
        },
        Some(Builtin::Cd) => {
            let arg = if ctx.argv.len() >= 2 {
                Some(&ctx.argv[1])
            } else {
                None
            };
            let target = cd_target(arg, home);
            let failure_message = cd_failure_message(arg);
            StagePlan::ChangeDir { target, failure_message }
        },
        None => StagePlan::External,
    }
}

/// Standard pipe chaining: each stage consumes exactly the bytes the
/// previous stage produced, the first consuming `input`; the result is what
/// the last stage produces.
pub open spec fn run_stages(
    stages: Seq<spec_fn(Seq<char>) -> Seq<char>>,
    input: Seq<char>,
) -> Seq<char>
    decreases stages.len(),
{
    if stages.len() == 0 {
        input
    } else {
        run_stages(stages.drop_first(), stages[0](input))
    }
}

/// An `echo` stage piped through a pass-through stage yields exactly the
/// echo text, whatever the pipeline's input. The first stage's behaviour is
/// the same whether the builtin's text was captured in process or an
/// external `echo` wrote it to a pipe, so the final output does not depend
/// on that choice; the second hypothesis is what `cat` does.
pub proof fn lemma_echo_through_passthrough(
    echo_stage: spec_fn(Seq<char>) -> Seq<char>,
    cat_stage: spec_fn(Seq<char>) -> Seq<char>,
    args: Seq<Seq<char>>,
    input: Seq<char>,
)
    requires
        forall|x: Seq<char>| #[trigger] echo_stage(x) == spec_echo_output(args),
        forall|x: Seq<char>| #[trigger] cat_stage(x) == x,
    ensures
        run_stages(seq![echo_stage, cat_stage], input) == spec_echo_output(args),
{
    let stages = seq![echo_stage, cat_stage];
    assert(stages.drop_first() =~= seq![cat_stage]);
    assert(seq![cat_stage].drop_first() =~= Seq::<spec_fn(Seq<char>) -> Seq<char>>::empty());
    assert(run_stages(stages, input) == run_stages(seq![cat_stage], echo_stage(input)));
    assert(run_stages(
        Seq::<spec_fn(Seq<char>) -> Seq<char>>::empty(),
        cat_stage(echo_stage(input)),
    ) == cat_stage(echo_stage(input)));
    assert(run_stages(seq![cat_stage], echo_stage(input)) == cat_stage(echo_stage(input)));
}

} // verus!
