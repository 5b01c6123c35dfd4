//! The tokenizer: one pass over the characters of a line, carrying the quoting
//! state, the fragment being built and the two indices that decide whether a
//! finished fragment starts a token of its own or continues the one before it.

use crate::text::{byte_len, char_is_whitespace, is_whitespace};
use vstd::prelude::*;
use vstd::string::StringExecFns;

verus! {

/// What the scan carries from one character to the next.
#[verifier::ext_equal]
pub struct ScanState {
    /// The tokens finished so far.
    pub tokens: Seq<Seq<char>>,
    /// The fragment being accumulated.
    pub next: Seq<char>,
    /// Where the fragment being accumulated starts.
    pub next_start: int,
    /// Inside a single-quoted run.
    pub in_single: bool,
    /// Inside a double-quoted run.
    pub in_double: bool,
    /// Where the most recently closed quoted run ended.
    pub prev_end_quote: Option<int>,
    /// The character before this one was an unquoted backslash.
    pub escaped: bool,
}

/// The state before the first character.
pub open spec fn initial() -> ScanState {
    ScanState {
        tokens: Seq::empty(),
        next: Seq::empty(),
        next_start: 0,
        in_single: false,
        in_double: false,
        prev_end_quote: None,
        escaped: false,
    }
}

/// The tokens after a fragment is finished. An empty fragment adds nothing. A
/// fragment that starts right behind the closing quote of the last quoted run
/// is appended to the last token, if there is one; any other fragment becomes
/// a token of its own.
pub open spec fn flush(
    tokens: Seq<Seq<char>>,
    next: Seq<char>,
    next_start: int,
    prev_end_quote: Option<int>,
) -> Seq<Seq<char>> {
    if next.len() == 0 {
        tokens
    } else if prev_end_quote == Some(next_start - 1) && tokens.len() > 0 {
        tokens.update(tokens.len() - 1, tokens.last() + next)
    } else {
        tokens.push(next)
    }
}

/// The characters before which a backslash inside double quotes is dropped.
pub open spec fn escapable_in_double(ch: char) -> bool {
    ch == '\\' || ch == '$' || ch == '\n' || ch == '"'
}

/// The state after the character `ch` at index `idx`.
pub open spec fn step(st: ScanState, idx: int, ch: char) -> ScanState {
    if ch == '"' && !st.in_single && !st.escaped {
        if !st.in_double {
            ScanState { in_double: true, next_start: idx, ..st }
        } else {
            ScanState {
                in_double: false,
                tokens: flush(st.tokens, st.next, st.next_start, st.prev_end_quote),
                next: Seq::empty(),
                prev_end_quote: Some(idx),
                next_start: idx + 1,
                ..st
            }
        }
    } else if ch == '\'' && !st.in_double && !st.escaped {
        if !st.in_single {
            ScanState { in_single: true, next_start: idx, ..st }
        } else {
            ScanState {
                in_single: false,
                tokens: flush(st.tokens, st.next, st.next_start, st.prev_end_quote),
                next: Seq::empty(),
                prev_end_quote: Some(idx),
                next_start: idx + 1,
                ..st
            }
        }
    } else if is_whitespace(ch) && !st.escaped {
        if st.in_single || st.in_double {
            ScanState { next: st.next.push(ch), ..st }
        } else {
            ScanState {
                tokens: flush(st.tokens, st.next, st.next_start, st.prev_end_quote),
                next: Seq::empty(),
                next_start: idx + 1,
                ..st
            }
        }
    } else if ch == '\\' && !st.escaped && !st.in_single {
        ScanState { escaped: true, ..st }
    } else if st.escaped && st.in_double {
        if escapable_in_double(ch) {
            ScanState { next: st.next.push(ch), escaped: false, ..st }
        } else {
            ScanState { next: st.next.push('\\').push(ch), escaped: false, ..st }
        }
    } else {
        ScanState { next: st.next.push(ch), escaped: false, ..st }
    }
}

/// The state after the first `n` characters of `line`.
pub open spec fn scan(line: Seq<char>, n: int) -> ScanState
    decreases n,
{
    if n <= 0 {
        initial()
    } else {
        step(scan(line, n - 1), n - 1, line[n - 1])
    }
}

/// The tokens of `line`, or `None` where the line ends inside a quoted run.
pub open spec fn tokens_of(line: Seq<char>) -> Option<Seq<Seq<char>>> {
    let st = scan(line, line.len() as int);
    if st.in_single || st.in_double {
        None
    } else {
        Some(flush(st.tokens, st.next, st.next_start, st.prev_end_quote))
    }
}

/// The message of the error for a line that ends inside a quoted run.
pub open spec fn unfinished_quotes_message() -> Seq<char> {
    "quotes unfinished"@
}

/// An optional index as a mathematical integer.
pub open spec fn index_model(idx: Option<&usize>) -> Option<int> {
    match idx {
        Some(i) => Some(*i as int),
        None => None,
    }
}

/// Finishes the fragment `next_arg`: see [`flush`]. The fragment is empty afterwards.
pub fn push_next_arg(
    args: &mut Vec<String>,
    next_arg: &mut String,
    next_arg_start_idx: usize,
    prev_end_quote_idx: Option<&usize>,
)
    ensures
        final(args).deep_view() == flush(
            old(args).deep_view(),
            old(next_arg)@,
            next_arg_start_idx as int,
            index_model(prev_end_quote_idx),
        ),
        final(next_arg)@ == Seq::<char>::empty(),
{
    if next_arg.as_str().is_empty() {
        return ;
    }
    let merge = match prev_end_quote_idx {
        Some(peq_idx) => next_arg_start_idx > 0 && *peq_idx == next_arg_start_idx - 1 && args.len()
            > 0,
        None => false,
    };
    if merge {
        let len = args.len();
        args[len - 1].append(next_arg.as_str());
    } else {
        args.push(next_arg.clone());
    }
    *next_arg = String::new();
}

/// Splits a line into tokens, honouring single quotes, double quotes and
/// backslash escapes. Fails exactly when the line ends inside a quoted run.
pub fn tokenize(input: &str) -> (r: Result<Vec<String>, String>)
    ensures
        match r {
            Ok(tokens) => tokens_of(input@) == Some(tokens.deep_view()),
            Err(e) => tokens_of(input@) is None && e@ == unfinished_quotes_message(),
        },
{
    let mut tokens: Vec<String> = Vec::new();
    let mut next = String::new();
    let mut next_start_idx: usize = 0;
    let mut in_single_quotes = false;
    let mut in_double_quotes = false;
    let mut prev_end_quote_idx: Option<usize> = None;
    let mut escaped = false;
    let mut idx: usize = 0;
    let _bytes = byte_len(input);

    for ch in it: input.chars()
        invariant
            it.seq() == input@,
            idx == it.index(),
            input@.len() <= usize::MAX,
            scan(input@, idx as int) =~= (ScanState {
                tokens: tokens.deep_view(),
                next: next@,
                next_start: next_start_idx as int,
                in_single: in_single_quotes,
                in_double: in_double_quotes,
                prev_end_quote: match prev_end_quote_idx {
                    Some(i) => Some(i as int),
                    None => None,
                },
                escaped,
            }),
    {
        if ch == '"' && !in_single_quotes && !escaped {
            in_double_quotes = !in_double_quotes;
            if in_double_quotes {
                next_start_idx = idx;
            } else {
                push_next_arg(&mut tokens, &mut next, next_start_idx, prev_end_quote_idx.as_ref());
                prev_end_quote_idx = Some(idx);
                next_start_idx = idx + 1;
            }
        } else if ch == '\'' && !in_double_quotes && !escaped {
            in_single_quotes = !in_single_quotes;
            if in_single_quotes {
                next_start_idx = idx;
            } else {
                push_next_arg(&mut tokens, &mut next, next_start_idx, prev_end_quote_idx.as_ref());
                prev_end_quote_idx = Some(idx);
                next_start_idx = idx + 1;
            }
        } else if char_is_whitespace(ch) && !escaped {
            if in_single_quotes || in_double_quotes {
                next.push(ch);
            } else {
                push_next_arg(&mut tokens, &mut next, next_start_idx, prev_end_quote_idx.as_ref());
                next_start_idx = idx + 1;
            }
        } else if ch == '\\' && !escaped && !in_single_quotes {
            escaped = true;
        } else if escaped && in_double_quotes {
            escaped = false;
            if ch == '\\' || ch == '$' || ch == '\n' || ch == '"' {
                next.push(ch);
            } else {
                next.push('\\');
                next.push(ch);
            }
        } else {
            escaped = false;
            next.push(ch);
        }
        idx = idx + 1;
    }

    if in_single_quotes || in_double_quotes {
        return Err("quotes unfinished".to_owned());
    }
    push_next_arg(&mut tokens, &mut next, next_start_idx, prev_end_quote_idx.as_ref());
    Ok(tokens)
}

} // verus!
