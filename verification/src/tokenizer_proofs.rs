//! What holds of the tokenizer's model for every line: which lines are
//! accepted, how escapes behave in each quoting context, and how runs of
//! characters that need no quoting pass through.

use crate::text::{is_whitespace, join};
use crate::tokenizer::{escapable_in_double, flush, initial, scan, step, tokens_of, ScanState};
use vstd::prelude::*;

verus! {

/// Scanning the first `n` characters looks at nothing behind them.
pub proof fn lemma_scan_reads_prefix(a: Seq<char>, b: Seq<char>, n: int)
    requires
        n <= a.len(),
    ensures
        scan(a + b, n) == scan(a, n),
    decreases n,
{
    if n > 0 {
        lemma_scan_reads_prefix(a, b, n - 1);
        assert((a + b)[n - 1] == a[n - 1]);
    }
}

/// The two quoting flags are never set together, an escape is never pending
/// inside single quotes, no finished token is empty, and both indices lie
/// within what was read.
pub proof fn lemma_scan_invariant(line: Seq<char>, n: int)
    requires
        0 <= n <= line.len(),
    ensures
        ({
            let st = scan(line, n);
            &&& !(st.in_single && st.in_double)
            &&& st.escaped ==> !st.in_single
            &&& forall|i: int| 0 <= i < st.tokens.len() ==> (#[trigger] st.tokens[i]).len() > 0
            &&& 0 <= st.next_start <= n
            &&& st.prev_end_quote matches Some(e) ==> 0 <= e < st.next_start
        }),
    decreases n,
{
    if n > 0 {
        lemma_scan_invariant(line, n - 1);
    }
}

/// Where a scan stands with respect to quoting.
pub enum Quoting {
    /// Outside any quoted run.
    Outside,
    /// Inside a single-quoted run.
    Single,
    /// Inside a double-quoted run.
    Double,
}

/// The quoting context and the pending escape after one more character. This
/// looks at quotes and backslashes only.
pub open spec fn quoting_step(q: (Quoting, bool), ch: char) -> (Quoting, bool) {
    match q {
        (Quoting::Single, _) => if ch == '\'' {
            (Quoting::Outside, false)
        } else {
            (Quoting::Single, false)
        },
        (mode, true) => (mode, false),
        (Quoting::Outside, false) => if ch == '"' {
            (Quoting::Double, false)
        } else if ch == '\'' {
            (Quoting::Single, false)
        } else {
            (Quoting::Outside, ch == '\\')
        },
        (Quoting::Double, false) => if ch == '"' {
            (Quoting::Outside, false)
        } else {
            (Quoting::Double, ch == '\\')
        },
    }
}

/// The quoting context and the pending escape after the first `n` characters.
pub open spec fn quoting_after(line: Seq<char>, n: int) -> (Quoting, bool)
    decreases n,
{
    if n <= 0 {
        (Quoting::Outside, false)
    } else {
        quoting_step(quoting_after(line, n - 1), line[n - 1])
    }
}

/// A line's quotes are balanced when its end lies outside every quoted run.
pub open spec fn balanced(line: Seq<char>) -> bool {
    quoting_after(line, line.len() as int).0 is Outside
}

/// The scan's flags follow the quoting context, whatever the tokens are.
pub proof fn lemma_scan_follows_quoting(line: Seq<char>, n: int)
    requires
        0 <= n <= line.len(),
    ensures
        ({
            let st = scan(line, n);
            let q = quoting_after(line, n);
            &&& st.in_single == (q.0 is Single)
            &&& st.in_double == (q.0 is Double)
            &&& st.escaped == q.1
        }),
    decreases n,
{
    if n > 0 {
        lemma_scan_follows_quoting(line, n - 1);
    }
}

/// A line has tokens exactly when its quotes are balanced.
pub proof fn lemma_accepts_balanced(line: Seq<char>)
    ensures
        tokens_of(line) is Some <==> balanced(line),
{
    lemma_scan_follows_quoting(line, line.len() as int);
}

/// How often `c` occurs among the first `n` characters.
pub open spec fn occurrences(line: Seq<char>, c: char, n: int) -> nat
    decreases n,
{
    if n <= 0 {
        0
    } else {
        occurrences(line, c, n - 1) + if line[n - 1] == c {
            1nat
        } else {
            0nat
        }
    }
}

/// In a line without backslashes and without quotes of the other kind, the
/// scan is inside a quoted run exactly after an odd number of quotes.
pub proof fn lemma_quote_parity(line: Seq<char>, quote: char, n: int)
    requires
        quote == '"' || quote == '\'',
        0 <= n <= line.len(),
        forall|i: int|
            0 <= i < line.len() ==> line[i] != '\\' && (line[i] == '"' || line[i] == '\'' ==> line[i]
                == quote),
    ensures
        ({
            let st = scan(line, n);
            let odd = occurrences(line, quote, n) % 2 == 1;
            &&& !st.escaped
            &&& st.in_double == (quote == '"' && odd)
            &&& st.in_single == (quote == '\'' && odd)
        }),
    decreases n,
{
    if n > 0 {
        lemma_quote_parity(line, quote, n - 1);
    }
}

/// A line without backslashes whose quotes are all of one kind has tokens
/// exactly when the number of those quotes is even.
pub proof fn lemma_accepts_even_quotes(line: Seq<char>, quote: char)
    requires
        quote == '"' || quote == '\'',
        forall|i: int|
            0 <= i < line.len() ==> line[i] != '\\' && (line[i] == '"' || line[i] == '\'' ==> line[i]
                == quote),
    ensures
        tokens_of(line) is Some <==> occurrences(line, quote, line.len() as int) % 2 == 0,
{
    lemma_quote_parity(line, quote, line.len() as int);
}

/// A character that stands for itself outside quotes: no whitespace, no
/// quote, no backslash.
pub open spec fn is_bare(ch: char) -> bool {
    !is_whitespace(ch) && ch != '"' && ch != '\'' && ch != '\\'
}

/// A character that stands for itself inside a run quoted by `quote`: inside
/// single quotes anything but the single quote, inside double quotes anything
/// but the double quote and the backslash.
pub open spec fn is_literal_in(quote: char, ch: char) -> bool {
    if quote == '\'' {
        ch != '\''
    } else {
        ch != '"' && ch != '\\'
    }
}

/// The state `st` with `more` added to the fragment being accumulated.
pub open spec fn extended(st: ScanState, more: Seq<char>) -> ScanState {
    ScanState { next: st.next + more, ..st }
}

/// Outside quotes, a backslash and the character after it leave that
/// character, whatever it is, in the fragment and change nothing else.
pub proof fn lemma_escape_outside_quotes(st: ScanState, idx: int, ch: char)
    requires
        !st.in_single,
        !st.in_double,
        !st.escaped,
    ensures
        step(step(st, idx, '\\'), idx + 1, ch) == extended(st, seq![ch]),
{
    assert(st.next.push(ch) =~= st.next + seq![ch]);
}

/// Inside double quotes, a backslash before a backslash, a dollar sign, a
/// newline or a double quote is dropped; before any other character it stays.
pub proof fn lemma_escape_in_double_quotes(st: ScanState, idx: int, ch: char)
    requires
        st.in_double,
        !st.in_single,
        !st.escaped,
    ensures
        step(step(st, idx, '\\'), idx + 1, ch) == if escapable_in_double(ch) {
            extended(st, seq![ch])
        } else {
            extended(st, seq!['\\', ch])
        },
{
    assert(st.next.push(ch) =~= st.next + seq![ch]);
    assert(st.next.push('\\').push(ch) =~= st.next + seq!['\\', ch]);
}

/// Inside single quotes a backslash is an ordinary character: it is kept and
/// escapes nothing, so a single quote after it still closes the run.
pub proof fn lemma_backslash_in_single_quotes(st: ScanState, idx: int)
    requires
        st.in_single,
        !st.in_double,
        !st.escaped,
    ensures
        step(st, idx, '\\') == extended(st, seq!['\\']),
        !step(step(st, idx, '\\'), idx + 1, '\'').in_single,
{
    assert(st.next.push('\\') =~= st.next + seq!['\\']);
}

/// A line that is a backslash and one character has that character as its
/// only token.
pub proof fn lemma_escaped_char_alone(ch: char)
    ensures
        tokens_of(seq!['\\', ch]) == Some(seq![seq![ch]]),
{
    let line = seq!['\\', ch];
    assert(scan(line, 0) == initial());
    assert(scan(line, 1) == step(scan(line, 0), 0, line[0]));
    assert(scan(line, 2) == step(scan(line, 1), 1, line[1]));
    lemma_escape_outside_quotes(initial(), 0, ch);
    assert(Seq::<char>::empty() + seq![ch] =~= seq![ch]);
    assert(Seq::<Seq<char>>::empty().push(seq![ch]) =~= seq![seq![ch]]);
}

/// A backslash and one character between double quotes give one token: the
/// character alone where the backslash escapes it, both otherwise.
pub proof fn lemma_escaped_char_in_double_quotes(ch: char)
    ensures
        tokens_of(seq!['"', '\\', ch, '"']) == Some(
            seq![
                if escapable_in_double(ch) {
                    seq![ch]
                } else {
                    seq!['\\', ch]
                },
            ],
        ),
{
    let line = seq!['"', '\\', ch, '"'];
    assert(scan(line, 0) == initial());
    assert(scan(line, 1) == step(scan(line, 0), 0, line[0]));
    assert(scan(line, 2) == step(scan(line, 1), 1, line[1]));
    assert(scan(line, 3) == step(scan(line, 2), 2, line[2]));
    assert(scan(line, 4) == step(scan(line, 3), 3, line[3]));
    lemma_escape_in_double_quotes(scan(line, 1), 1, ch);
    let inner = if escapable_in_double(ch) {
        seq![ch]
    } else {
        seq!['\\', ch]
    };
    assert(Seq::<char>::empty() + inner =~= inner);
    assert(Seq::<Seq<char>>::empty().push(inner) =~= seq![inner]);
}

/// A backslash and one character other than the single quote, between single
/// quotes, give one token that holds both.
pub proof fn lemma_backslash_kept_in_single_quotes(ch: char)
    requires
        ch != '\'',
    ensures
        tokens_of(seq!['\'', '\\', ch, '\'']) == Some(seq![seq!['\\', ch]]),
{
    let line = seq!['\'', '\\', ch, '\''];
    assert(scan(line, 0) == initial());
    assert(scan(line, 1) == step(scan(line, 0), 0, line[0]));
    assert(scan(line, 2) == step(scan(line, 1), 1, line[1]));
    assert(scan(line, 3) == step(scan(line, 2), 2, line[2]));
    assert(scan(line, 4) == step(scan(line, 3), 3, line[3]));
    assert(Seq::<char>::empty().push('\\').push(ch) =~= seq!['\\', ch]);
    assert(Seq::<Seq<char>>::empty().push(seq!['\\', ch]) =~= seq![seq!['\\', ch]]);
}

/// Outside quotes, a run of bare characters is added to the fragment as it is.
pub proof fn lemma_bare_run(line: Seq<char>, from: int, to: int)
    requires
        0 <= from <= to <= line.len(),
        !scan(line, from).in_single,
        !scan(line, from).in_double,
        !scan(line, from).escaped,
        forall|k: int| from <= k < to ==> is_bare(#[trigger] line[k]),
    ensures
        scan(line, to) == extended(scan(line, from), line.subrange(from, to)),
    decreases to - from,
{
    let st = scan(line, from);
    if to == from {
        assert(st.next + line.subrange(from, to) =~= st.next);
    } else {
        lemma_bare_run(line, from, to - 1);
        assert(is_bare(line[to - 1]));
        assert((st.next + line.subrange(from, to - 1)).push(line[to - 1]) =~= st.next
            + line.subrange(from, to));
    }
}

/// Outside quotes, a run of whitespace of any length finishes the fragment
/// once and leaves the next fragment to start behind the run.
pub proof fn lemma_whitespace_run(line: Seq<char>, from: int, to: int)
    requires
        0 <= from < to <= line.len(),
        !scan(line, from).in_single,
        !scan(line, from).in_double,
        !scan(line, from).escaped,
        forall|k: int| from <= k < to ==> is_whitespace(#[trigger] line[k]),
    ensures
        ({
            let st = scan(line, from);
            scan(line, to) == ScanState {
                tokens: flush(st.tokens, st.next, st.next_start, st.prev_end_quote),
                next: Seq::empty(),
                next_start: to,
                ..st
            }
        }),
    decreases to - from,
{
    assert(is_whitespace(line[to - 1]));
    if to - 1 > from {
        lemma_whitespace_run(line, from, to - 1);
    }
}

/// Inside a quoted run, a run of characters that are literal there is added
/// to the fragment as it is, whitespace included.
pub proof fn lemma_quoted_run(line: Seq<char>, quote: char, from: int, to: int)
    requires
        quote == '"' || quote == '\'',
        0 <= from <= to <= line.len(),
        scan(line, from).in_single == (quote == '\''),
        scan(line, from).in_double == (quote == '"'),
        !scan(line, from).escaped,
        forall|k: int| from <= k < to ==> is_literal_in(quote, #[trigger] line[k]),
    ensures
        scan(line, to) == extended(scan(line, from), line.subrange(from, to)),
    decreases to - from,
{
    let st = scan(line, from);
    if to == from {
        assert(st.next + line.subrange(from, to) =~= st.next);
    } else {
        lemma_quoted_run(line, quote, from, to - 1);
        assert(is_literal_in(quote, line[to - 1]));
        assert((st.next + line.subrange(from, to - 1)).push(line[to - 1]) =~= st.next
            + line.subrange(from, to));
    }
}

/// The characters `body` between two quotes `quote`.
pub open spec fn quoted(quote: char, body: Seq<char>) -> Seq<char> {
    seq![quote] + body + seq![quote]
}

/// Two quoted runs with nothing between them give one token, the two bodies
/// laid end to end. The quotes of the two runs may differ in kind.
pub proof fn lemma_adjacent_quoted_runs_merge(
    first_quote: char,
    first: Seq<char>,
    second_quote: char,
    second: Seq<char>,
)
    requires
        first_quote == '"' || first_quote == '\'',
        second_quote == '"' || second_quote == '\'',
        forall|k: int| 0 <= k < first.len() ==> is_literal_in(first_quote, #[trigger] first[k]),
        forall|k: int| 0 <= k < second.len() ==> is_literal_in(second_quote, #[trigger] second[k]),
        first.len() + second.len() > 0,
    ensures
        tokens_of(quoted(first_quote, first) + quoted(second_quote, second)) == Some(
            seq![first + second],
        ),
{
    let line = quoted(first_quote, first) + quoted(second_quote, second);
    let a = first.len() as int;
    let b = second.len() as int;
    assert(line.len() == a + b + 4);
    assert(line[0] == first_quote);
    assert(line[a + 1] == first_quote);
    assert(line[a + 2] == second_quote);
    assert(line[a + b + 3] == second_quote);
    assert(line.subrange(1, a + 1) =~= first);
    assert(line.subrange(a + 3, a + b + 3) =~= second);
    assert forall|k: int| 1 <= k < a + 1 implies is_literal_in(
        first_quote,
        #[trigger] line[k],
    ) by {
        assert(line[k] == first[k - 1]);
    }
    assert forall|k: int| a + 3 <= k < a + b + 3 implies is_literal_in(
        second_quote,
        #[trigger] line[k],
    ) by {
        assert(line[k] == second[k - a - 3]);
    }

    assert(scan(line, 0) == initial());
    assert(scan(line, 1) == step(scan(line, 0), 0, line[0]));
    lemma_quoted_run(line, first_quote, 1, a + 1);
    assert(Seq::<char>::empty() + first =~= first);
    assert(scan(line, a + 2) == step(scan(line, a + 1), a + 1, line[a + 1]));
    assert(scan(line, a + 3) == step(scan(line, a + 2), a + 2, line[a + 2]));
    lemma_quoted_run(line, second_quote, a + 3, a + b + 3);
    assert(Seq::<char>::empty() + second =~= second);
    assert(scan(line, a + b + 4) == step(scan(line, a + b + 3), a + b + 3, line[a + b + 3]));

    let done = scan(line, a + b + 4);
    assert(done.next.len() == 0);
    if a == 0 {
        assert(first + second =~= second);
        assert(done.tokens =~= seq![first + second]);
    } else if b == 0 {
        assert(first + second =~= first);
        assert(done.tokens =~= seq![first + second]);
    } else {
        assert(done.tokens =~= seq![first + second]);
    }
}

/// A word that needs no quoting: not empty, and bare characters only.
pub open spec fn is_bare_word(word: Seq<char>) -> bool {
    word.len() > 0 && forall|k: int| 0 <= k < word.len() ==> is_bare(#[trigger] word[k])
}

/// Bare words joined by single spaces are scanned into those words: all but
/// the last are finished tokens, the last is the fragment being accumulated.
pub proof fn lemma_scan_joined_words(words: Seq<Seq<char>>)
    requires
        words.len() > 0,
        forall|i: int| 0 <= i < words.len() ==> is_bare_word(#[trigger] words[i]),
    ensures
        ({
            let line = join(words, seq![' ']);
            scan(line, line.len() as int) == ScanState {
                tokens: words.drop_last(),
                next: words.last(),
                next_start: line.len() - words.last().len(),
                in_single: false,
                in_double: false,
                prev_end_quote: None,
                escaped: false,
            }
        }),
    decreases words.len(),
{
    let line = join(words, seq![' ']);
    let last = words.last();
    assert(is_bare_word(last));
    if words.len() == 1 {
        assert(line == last);
        assert(scan(line, 0) == initial());
        lemma_bare_run(line, 0, line.len() as int);
        assert(line.subrange(0, line.len() as int) =~= line);
        assert(Seq::<char>::empty() + line =~= line);
        assert(words.drop_last() =~= Seq::<Seq<char>>::empty());
    } else {
        let front = words.drop_last();
        let head = join(front, seq![' ']);
        assert forall|i: int| 0 <= i < front.len() implies is_bare_word(#[trigger] front[i]) by {
            assert(front[i] == words[i]);
        }
        lemma_scan_joined_words(front);
        let n = head.len() as int;
        assert(line == head + seq![' '] + last);
        assert(line =~= head + (seq![' '] + last));
        lemma_scan_reads_prefix(head, seq![' '] + last, n);
        assert(line[n] == ' ');
        assert(scan(line, n + 1) == step(scan(line, n), n, line[n]));
        assert(is_bare_word(front.last()));
        assert(front.drop_last().push(front.last()) =~= front);
        assert forall|k: int| n + 1 <= k < line.len() implies is_bare(#[trigger] line[k]) by {
            assert(line[k] == last[k - n - 1]);
        }
        lemma_bare_run(line, n + 1, line.len() as int);
        assert(line.subrange(n + 1, line.len() as int) =~= last);
        assert(Seq::<char>::empty() + last =~= last);
    }
}

/// Tokenizing bare words joined by single spaces gives the words back.
pub proof fn lemma_bare_words_round_trip(words: Seq<Seq<char>>)
    requires
        forall|i: int| 0 <= i < words.len() ==> is_bare_word(#[trigger] words[i]),
    ensures
        tokens_of(join(words, seq![' '])) == Some(words),
{
    let line = join(words, seq![' ']);
    if words.len() == 0 {
        assert(line.len() == 0);
        assert(scan(line, 0) == initial());
        assert(words =~= Seq::<Seq<char>>::empty());
    } else {
        lemma_scan_joined_words(words);
        assert(is_bare_word(words.last()));
        assert(words.drop_last().push(words.last()) =~= words);
    }
}

/// Every character is whitespace.
pub open spec fn is_gap(gap: Seq<char>) -> bool {
    forall|k: int| 0 <= k < gap.len() ==> is_whitespace(#[trigger] gap[k])
}

/// The words with a gap before each and one more behind the last: there is
/// one gap more than there are words.
pub open spec fn spaced(words: Seq<Seq<char>>, gaps: Seq<Seq<char>>) -> Seq<char>
    decreases words.len(),
{
    if words.len() == 0 {
        gaps[0]
    } else {
        spaced(words.drop_last(), gaps.drop_last()) + words.last() + gaps.last()
    }
}

/// Bare words are set apart by gaps of whitespace where every gap between
/// two words has at least one character.
pub open spec fn well_spaced(words: Seq<Seq<char>>, gaps: Seq<Seq<char>>) -> bool {
    &&& gaps.len() == words.len() + 1
    &&& forall|i: int| 0 <= i < words.len() ==> is_bare_word(#[trigger] words[i])
    &&& forall|i: int| 0 <= i < gaps.len() ==> is_gap(#[trigger] gaps[i])
    &&& forall|i: int| 0 < i < words.len() ==> (#[trigger] gaps[i]).len() > 0
}

/// After bare words set apart by whitespace, the scan holds the words:
/// all of them as finished tokens where whitespace came last, else the last
/// of them as the fragment.
pub proof fn lemma_scan_spaced_words(words: Seq<Seq<char>>, gaps: Seq<Seq<char>>)
    requires
        well_spaced(words, gaps),
    ensures
        ({
            let line = spaced(words, gaps);
            let st = scan(line, line.len() as int);
            let open_word = words.len() > 0 && gaps.last().len() == 0;
            &&& !st.in_single && !st.in_double && !st.escaped
            &&& st.prev_end_quote is None
            &&& st.tokens == if open_word {
                words.drop_last()
            } else {
                words
            }
            &&& st.next == if open_word {
                words.last()
            } else {
                Seq::empty()
            }
        }),
    decreases words.len(),
{
    let line = spaced(words, gaps);
    if words.len() == 0 {
        assert(line == gaps[0]);
        assert(is_gap(gaps[0]));
        assert(scan(line, 0) == initial());
        if line.len() > 0 {
            lemma_whitespace_run(line, 0, line.len() as int);
        }
        assert(words =~= Seq::<Seq<char>>::empty());
    } else {
        let front = words.drop_last();
        let front_gaps = gaps.drop_last();
        let head = spaced(front, front_gaps);
        let word = words.last();
        let gap = gaps.last();
        assert(well_spaced(front, front_gaps)) by {
            assert forall|i: int| 0 <= i < front.len() implies is_bare_word(
                #[trigger] front[i],
            ) by {
                assert(front[i] == words[i]);
            }
            assert forall|i: int| 0 <= i < front_gaps.len() implies is_gap(
                #[trigger] front_gaps[i],
            ) by {
                assert(front_gaps[i] == gaps[i]);
            }
            assert forall|i: int| 0 < i < front.len() implies (#[trigger] front_gaps[i]).len()
                > 0 by {
                assert(front_gaps[i] == gaps[i]);
            }
        }
        lemma_scan_spaced_words(front, front_gaps);
        let n = head.len() as int;
        let m = n + word.len();
        assert(line == head + word + gap);
        assert(line =~= head + (word + gap));
        lemma_scan_reads_prefix(head, word + gap, n);
        // The gap before the word is not empty unless the word is the first.
        if front.len() > 0 {
            assert(front_gaps.last() == gaps[front.len() as int]);
            assert(gaps[front.len() as int].len() > 0);
        }
        assert(scan(line, n).tokens == front);
        assert(scan(line, n).next =~= Seq::<char>::empty());
        assert(is_bare_word(word));
        assert forall|k: int| n <= k < m implies is_bare(#[trigger] line[k]) by {
            assert(line[k] == word[k - n]);
        }
        lemma_bare_run(line, n, m);
        assert(line.subrange(n, m) =~= word);
        assert(Seq::<char>::empty() + word =~= word);
        assert(scan(line, m).next == word);
        if gap.len() > 0 {
            assert(is_gap(gap));
            assert forall|k: int| m <= k < line.len() implies is_whitespace(
                #[trigger] line[k],
            ) by {
                assert(line[k] == gap[k - m]);
            }
            lemma_whitespace_run(line, m, line.len() as int);
            assert(front.push(word) =~= words);
        } else {
            assert(line.len() == m);
        }
    }
}

/// Whitespace outside quotes only sets words apart: however long the gaps
/// between bare words are, and whatever whitespace they are made of, the
/// tokens are the words.
pub proof fn lemma_whitespace_collapses(words: Seq<Seq<char>>, gaps: Seq<Seq<char>>)
    requires
        well_spaced(words, gaps),
    ensures
        tokens_of(spaced(words, gaps)) == Some(words),
{
    lemma_scan_spaced_words(words, gaps);
    if words.len() > 0 {
        assert(is_bare_word(words.last()));
        assert(words.drop_last().push(words.last()) =~= words);
    }
}

/// A line without quotes and backslashes.
pub open spec fn is_unquoted(line: Seq<char>) -> bool {
    forall|k: int| 0 <= k < line.len() ==> line[k] != '"' && line[k] != '\'' && line[k] != '\\'
}

/// While a line without quotes and backslashes is scanned, no quoted run
/// opens or closes, and the finished tokens and the fragment hold bare
/// characters only.
pub proof fn lemma_scan_unquoted(line: Seq<char>, n: int)
    requires
        is_unquoted(line),
        0 <= n <= line.len(),
    ensures
        ({
            let st = scan(line, n);
            &&& !st.in_single && !st.in_double && !st.escaped
            &&& st.prev_end_quote is None
            &&& forall|i: int| 0 <= i < st.tokens.len() ==> is_bare_word(#[trigger] st.tokens[i])
            &&& forall|k: int| 0 <= k < st.next.len() ==> is_bare(#[trigger] st.next[k])
        }),
    decreases n,
{
    if n > 0 {
        lemma_scan_unquoted(line, n - 1);
    }
}

/// A line without quotes and backslashes always has tokens, and each of them
/// is a bare word.
pub proof fn lemma_unquoted_tokens_are_bare(line: Seq<char>)
    requires
        is_unquoted(line),
    ensures
        tokens_of(line) matches Some(tokens) && forall|i: int|
            0 <= i < tokens.len() ==> is_bare_word(#[trigger] tokens[i]),
{
    lemma_scan_unquoted(line, line.len() as int);
}

} // verus!
