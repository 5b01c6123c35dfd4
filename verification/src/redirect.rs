//! The redirect splitter: which tokens are the command and its arguments, and
//! which name the files that standard output and standard error go to.

use vstd::prelude::*;
use vstd::string::StringExecFns;

verus! {

/// The four redirect operators.
#[derive(Clone, Copy, Debug, PartialEq, Eq, Structural)]
pub enum Redirect {
    /// `>` or `1>`: standard output, replacing the file.
    StdoutTruncate,
    /// `>>` or `1>>`: standard output, added to the file.
    StdoutAppend,
    /// `2>`: standard error, replacing the file.
    StderrTruncate,
    /// `2>>`: standard error, added to the file.
    StderrAppend,
}

/// The operator that `token` spells, if it spells one.
pub open spec fn operator_of(token: Seq<char>) -> Option<Redirect> {
    if token == seq!['>'] || token == seq!['1', '>'] {
        Some(Redirect::StdoutTruncate)
    } else if token == seq!['>', '>'] || token == seq!['1', '>', '>'] {
        Some(Redirect::StdoutAppend)
    } else if token == seq!['2', '>'] {
        Some(Redirect::StderrTruncate)
    } else if token == seq!['2', '>', '>'] {
        Some(Redirect::StderrAppend)
    } else {
        None
    }
}

/// Where a token that is no operator goes.
pub enum Slot {
    /// Among the command and its arguments.
    Command,
    /// Among the targets of an operator.
    Target(Redirect),
}

/// The slot of the token at `i`, which is no operator: the targets of the
/// operator right before it, or the command where no operator stands there.
pub open spec fn slot_of(tokens: Seq<Seq<char>>, i: int) -> Slot {
    if i > 0 {
        match operator_of(tokens[i - 1]) {
            Some(op) => Slot::Target(op),
            None => Slot::Command,
        }
    } else {
        Slot::Command
    }
}

/// The tokens among the first `n` that are no operators and go to `slot`, in
/// the order in which they stand.
pub open spec fn routed(tokens: Seq<Seq<char>>, slot: Slot, n: int) -> Seq<Seq<char>>
    decreases n,
{
    if n <= 0 {
        Seq::empty()
    } else if operator_of(tokens[n - 1]) is None && slot_of(tokens, n - 1) == slot {
        routed(tokens, slot, n - 1).push(tokens[n - 1])
    } else {
        routed(tokens, slot, n - 1)
    }
}

/// Two operators stand side by side at `i - 1` and `i`.
pub open spec fn clash_at(tokens: Seq<Seq<char>>, i: int) -> bool {
    0 < i < tokens.len() && operator_of(tokens[i - 1]) is Some && operator_of(tokens[i]) is Some
}

/// The least `i` below `n` with two operators side by side at `i - 1` and `i`.
pub open spec fn first_clash(tokens: Seq<Seq<char>>, n: int) -> Option<int>
    decreases n,
{
    if n <= 0 {
        None
    } else {
        match first_clash(tokens, n - 1) {
            Some(i) => Some(i),
            None => if clash_at(tokens, n - 1) {
                Some(n - 1)
            } else {
                None
            },
        }
    }
}

/// The five lists of a split, as sequences of characters.
#[verifier::ext_equal]
pub struct SplitModel {
    pub cmd_args: Seq<Seq<char>>,
    pub outs: Seq<Seq<char>>,
    pub append_outs: Seq<Seq<char>>,
    pub errs: Seq<Seq<char>>,
    pub append_errs: Seq<Seq<char>>,
}

/// The message for a second operator `token` right behind another.
pub open spec fn parse_error_message(token: Seq<char>) -> Seq<char> {
    "parse error near "@ + token
}

/// The split of `tokens`: the five lists, or the message that names the first
/// operator that stands right behind another. An operator at the very end,
/// with no token behind it, is dropped.
pub open spec fn split_of(tokens: Seq<Seq<char>>) -> Result<SplitModel, Seq<char>> {
    let n = tokens.len() as int;
    match first_clash(tokens, n) {
        Some(i) => Err(parse_error_message(tokens[i])),
        None => Ok(
            SplitModel {
                cmd_args: routed(tokens, Slot::Command, n),
                outs: routed(tokens, Slot::Target(Redirect::StdoutTruncate), n),
                append_outs: routed(tokens, Slot::Target(Redirect::StdoutAppend), n),
                errs: routed(tokens, Slot::Target(Redirect::StderrTruncate), n),
                append_errs: routed(tokens, Slot::Target(Redirect::StderrAppend), n),
            },
        ),
    }
}

impl Redirect {
    /// Reads `token` as a redirect operator.
    pub fn parse(token: &str) -> (r: Option<Redirect>)
        ensures
            r == operator_of(token@),
    {
        proof {
            reveal_strlit(">");
            reveal_strlit("1>");
            reveal_strlit(">>");
            reveal_strlit("1>>");
            reveal_strlit("2>");
            reveal_strlit("2>>");
            assert(">"@ =~= seq!['>']);
            assert("1>"@ =~= seq!['1', '>']);
            assert(">>"@ =~= seq!['>', '>']);
            assert("1>>"@ =~= seq!['1', '>', '>']);
            assert("2>"@ =~= seq!['2', '>']);
            assert("2>>"@ =~= seq!['2', '>', '>']);
        }
        if token.eq("1>") || token.eq(">") {
            Some(Redirect::StdoutTruncate)
        } else if token.eq("1>>") || token.eq(">>") {
            Some(Redirect::StdoutAppend)
        } else if token.eq("2>") {
            Some(Redirect::StderrTruncate)
        } else if token.eq("2>>") {
            Some(Redirect::StderrAppend)
        } else {
            None
        }
    }
}

/// The command with its arguments, and the targets of each redirect operator.
pub struct Split<'a> {
    pub cmd_args: Vec<&'a str>,
    pub outs: Vec<&'a str>,
    pub append_outs: Vec<&'a str>,
    pub errs: Vec<&'a str>,
    pub append_errs: Vec<&'a str>,
}

impl<'a> View for Split<'a> {
    type V = SplitModel;

    open spec fn view(&self) -> SplitModel {
        SplitModel {
            cmd_args: self.cmd_args.deep_view(),
            outs: self.outs.deep_view(),
            append_outs: self.append_outs.deep_view(),
            errs: self.errs.deep_view(),
            append_errs: self.append_errs.deep_view(),
        }
    }
}

impl<'a> Split<'a> {
    /// A split with five empty lists.
    pub fn new() -> (r: Self)
        ensures
            r@ == (SplitModel {
                cmd_args: Seq::empty(),
                outs: Seq::empty(),
                append_outs: Seq::empty(),
                errs: Seq::empty(),
                append_errs: Seq::empty(),
            }),
    {
        let r = Self {
            cmd_args: Vec::new(),
            outs: Vec::new(),
            append_outs: Vec::new(),
            errs: Vec::new(),
            append_errs: Vec::new(),
        };
        assert(r@ =~= (SplitModel {
            cmd_args: Seq::empty(),
            outs: Seq::empty(),
            append_outs: Seq::empty(),
            errs: Seq::empty(),
            append_errs: Seq::empty(),
        }));
        r
    }
}

/// Parts the tokens of a line into the command with its arguments and the
/// targets of its redirect operators. Fails where an operator stands right
/// behind another.
pub fn split_tokens<'a>(tokens: &[&'a str]) -> (r: Result<Split<'a>, String>)
    ensures
        match r {
            Ok(split) => split_of(tokens.deep_view()) == Ok::<SplitModel, Seq<char>>(split@),
            Err(e) => split_of(tokens.deep_view()) == Err::<SplitModel, Seq<char>>(e@),
        },
{
    let mut split = Split::new();
    let mut redirect: Option<Redirect> = None;
    let n = tokens.len();
    let ghost model = tokens.deep_view();

    for i in 0..n
        invariant
            n == tokens@.len(),
            model == tokens.deep_view(),
            first_clash(model, i as int) is None,
            redirect == if i > 0 {
                operator_of(model[i - 1])
            } else {
                None
            },
            split@ =~= (SplitModel {
                cmd_args: routed(model, Slot::Command, i as int),
                outs: routed(model, Slot::Target(Redirect::StdoutTruncate), i as int),
                append_outs: routed(model, Slot::Target(Redirect::StdoutAppend), i as int),
                errs: routed(model, Slot::Target(Redirect::StderrTruncate), i as int),
                append_errs: routed(model, Slot::Target(Redirect::StderrAppend), i as int),
            }),
    {
        let token = tokens[i];
        assert(model[i as int] == token@);
        match Redirect::parse(token) {
            Some(op) => {
                if redirect.is_some() {
                    let mut message = "parse error near ".to_owned();
                    message.append(token);
                    proof {
                        lemma_first_clash_stays(model, i + 1, n as int);
                    }
                    return Err(message);
                }
                redirect = Some(op);
            },
            None => {
                match redirect {
                    Some(Redirect::StdoutTruncate) => split.outs.push(token),
                    Some(Redirect::StdoutAppend) => split.append_outs.push(token),
                    Some(Redirect::StderrTruncate) => split.errs.push(token),
                    Some(Redirect::StderrAppend) => split.append_errs.push(token),
                    None => split.cmd_args.push(token),
                }
                redirect = None;
            },
        }
    }
    Ok(split)
}

/// Once a clash is found below `n`, it stays the first one for every longer prefix.
pub proof fn lemma_first_clash_stays(tokens: Seq<Seq<char>>, n: int, m: int)
    requires
        n <= m,
        first_clash(tokens, n) is Some,
    ensures
        first_clash(tokens, m) == first_clash(tokens, n),
    decreases m - n,
{
    if n < m {
        lemma_first_clash_stays(tokens, n, m - 1);
    }
}

/// One place that a buffer is written to.
#[derive(Clone, Copy, Debug, PartialEq, Eq)]
pub enum Sink<'a> {
    /// The terminal's own stream.
    Terminal,
    /// The file at this path, created or emptied first.
    Truncate(&'a str),
    /// The file at this path, created if need be and added to at its end.
    Append(&'a str),
}

/// A sink with its path as a sequence of characters.
pub enum SinkModel {
    Terminal,
    Truncate(Seq<char>),
    Append(Seq<char>),
}

impl<'a> DeepView for Sink<'a> {
    type V = SinkModel;

    open spec fn deep_view(&self) -> SinkModel {
        match *self {
            Sink::Terminal => SinkModel::Terminal,
            Sink::Truncate(path) => SinkModel::Truncate(path@),
            Sink::Append(path) => SinkModel::Append(path@),
        }
    }
}

/// The sinks of one stream: every truncate target, then every append target,
/// each in its order; the terminal alone where there is no target at all.
pub open spec fn sinks_of(truncate: Seq<Seq<char>>, append: Seq<Seq<char>>) -> Seq<SinkModel> {
    if truncate.len() == 0 && append.len() == 0 {
        seq![SinkModel::Terminal]
    } else {
        Seq::new(truncate.len(), |i: int| SinkModel::Truncate(truncate[i])) + Seq::new(
            append.len(),
            |i: int| SinkModel::Append(append[i]),
        )
    }
}

/// Lists where a stream's buffer goes, given its truncate and append targets.
pub fn stream_sinks<'a>(truncate: &[&'a str], append: &[&'a str]) -> (r: Vec<Sink<'a>>)
    ensures
        r.deep_view() == sinks_of(truncate.deep_view(), append.deep_view()),
{
    let mut sinks: Vec<Sink<'a>> = Vec::new();
    let nt = truncate.len();
    let na = append.len();
    if nt == 0 && na == 0 {
        sinks.push(Sink::Terminal);
        assert(sinks.deep_view() =~= seq![SinkModel::Terminal]);
        return sinks;
    }
    for i in 0..nt
        invariant
            nt == truncate@.len(),
            sinks@.len() == i,
            forall|k: int|
                0 <= k < i ==> (#[trigger] sinks@[k]).deep_view() == SinkModel::Truncate(
                    truncate@[k]@,
                ),
    {
        sinks.push(Sink::Truncate(truncate[i]));
    }
    for i in 0..na
        invariant
            nt == truncate@.len(),
            na == append@.len(),
            sinks@.len() == nt + i,
            forall|k: int|
                0 <= k < nt ==> (#[trigger] sinks@[k]).deep_view() == SinkModel::Truncate(
                    truncate@[k]@,
                ),
            forall|k: int|
                0 <= k < i ==> (#[trigger] sinks@[nt + k]).deep_view() == SinkModel::Append(
                    append@[k]@,
                ),
    {
        sinks.push(Sink::Append(append[i]));
    }
    assert(sinks.deep_view() =~= sinks_of(truncate.deep_view(), append.deep_view())) by {
        let want = sinks_of(truncate.deep_view(), append.deep_view());
        assert(want.len() == nt + na);
        assert forall|k: int| 0 <= k < nt + na implies sinks.deep_view()[k] == want[k] by {
            if k >= nt {
                assert(sinks@[nt + (k - nt)].deep_view() == SinkModel::Append(append@[k - nt]@));
            }
        }
    }
    sinks
}

/// Where the two buffers of a command go.
pub struct Routing<'a> {
    /// The sinks of the buffer of standard output.
    pub out: Vec<Sink<'a>>,
    /// The sinks of the buffer of standard error.
    pub err: Vec<Sink<'a>>,
}

impl<'a> Split<'a> {
    /// Decides where the output and the errors of the command go. The two
    /// streams are decided apart: each goes to all of its own targets, or to
    /// the terminal where it has none.
    pub fn routing(&self) -> (r: Routing<'a>)
        ensures
            r.out.deep_view() == sinks_of(self@.outs, self@.append_outs),
            r.err.deep_view() == sinks_of(self@.errs, self@.append_errs),
    {
        Routing {
            out: stream_sinks(self.outs.as_slice(), self.append_outs.as_slice()),
            err: stream_sinks(self.errs.as_slice(), self.append_errs.as_slice()),
        }
    }
}

/// The step at which writing to a redirect target went wrong.
#[derive(Clone, Copy, Debug, PartialEq, Eq, Structural)]
pub enum Failure {
    /// Creating or emptying the file of a truncate target.
    Create,
    /// Writing the buffer to the file of a truncate target.
    Write,
    /// Opening the file of an append target.
    Open,
    /// Adding the buffer to the file of an append target.
    Append,
}

/// The report of a failure at `path`, with the host's own words in `cause`.
pub open spec fn failure_message_of(failure: Failure, path: Seq<char>, cause: Seq<char>) -> Seq<
    char,
> {
    let lead = match failure {
        Failure::Create => "failed to create file "@,
        Failure::Write => "failed to write to file "@,
        Failure::Open => "failed to open file "@,
        Failure::Append => "failed to append to file "@,
    };
    lead + path + ": "@ + cause
}

/// Words the report of a failed write to one redirect target. Such a failure
/// concerns that target alone.
pub fn failure_message(failure: Failure, path: &str, cause: &str) -> (r: String)
    ensures
        r@ == failure_message_of(failure, path@, cause@),
{
    let mut message = match failure {
        Failure::Create => "failed to create file ".to_owned(),
        Failure::Write => "failed to write to file ".to_owned(),
        Failure::Open => "failed to open file ".to_owned(),
        Failure::Append => "failed to append to file ".to_owned(),
    };
    message.append(path);
    message.append(": ");
    message.append(cause);
    message
}

} // verus!
