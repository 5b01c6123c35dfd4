//! What holds of every split: which clash is reported, that every token that
//! is no operator lands in one list and keeps its place among its
//! neighbours, and what a dangling operator does.

use crate::redirect::{
    clash_at, first_clash, operator_of, routed, slot_of, split_of, Redirect, Slot, SplitModel,
};
use crate::text::join;
use crate::tokenizer::tokens_of;
use crate::tokenizer_proofs::{
    is_bare_word, is_unquoted, lemma_bare_words_round_trip, lemma_unquoted_tokens_are_bare,
};
use vstd::prelude::*;

verus! {

/// The clash that is reported is the leftmost one, and none is reported only
/// where no two operators stand side by side.
pub proof fn lemma_first_clash_is_least(tokens: Seq<Seq<char>>, n: int)
    requires
        0 <= n <= tokens.len(),
    ensures
        match first_clash(tokens, n) {
            Some(i) => 0 < i < n && clash_at(tokens, i) && forall|j: int|
                0 <= j < i ==> !clash_at(tokens, j),
            None => forall|j: int| 0 <= j < n ==> !clash_at(tokens, j),
        },
    decreases n,
{
    if n > 0 {
        lemma_first_clash_is_least(tokens, n - 1);
    }
}

/// A split fails exactly where two operators stand side by side.
pub proof fn lemma_split_fails_on_clash(tokens: Seq<Seq<char>>)
    ensures
        split_of(tokens) is Err <==> exists|i: int| clash_at(tokens, i),
{
    lemma_first_clash_is_least(tokens, tokens.len() as int);
    if let Some(i) = first_clash(tokens, tokens.len() as int) {
        assert(clash_at(tokens, i));
    }
}

/// The positions among the first `n` whose tokens are no operators and go to
/// `slot`, ascending.
pub open spec fn positions(tokens: Seq<Seq<char>>, slot: Slot, n: int) -> Seq<int>
    decreases n,
{
    if n <= 0 {
        Seq::empty()
    } else if operator_of(tokens[n - 1]) is None && slot_of(tokens, n - 1) == slot {
        positions(tokens, slot, n - 1).push(n - 1)
    } else {
        positions(tokens, slot, n - 1)
    }
}

/// Each list holds the tokens at its positions, which ascend: the list keeps
/// the order in which its tokens stood, and holds none of them twice.
pub proof fn lemma_routed_in_order(tokens: Seq<Seq<char>>, slot: Slot, n: int)
    requires
        0 <= n <= tokens.len(),
    ensures
        ({
            let at = positions(tokens, slot, n);
            let list = routed(tokens, slot, n);
            &&& list.len() == at.len()
            &&& forall|k: int| 0 <= k < at.len() ==> 0 <= #[trigger] at[k] < n
            &&& forall|k: int| 0 <= k < at.len() ==> #[trigger] list[k] == tokens[at[k]]
            &&& forall|j: int, k: int| 0 <= j < k < at.len() ==> at[j] < at[k]
        }),
    decreases n,
{
    if n > 0 {
        lemma_routed_in_order(tokens, slot, n - 1);
    }
}

/// A position is among those of `slot` exactly when its token is no operator
/// and `slot` is its slot.
pub proof fn lemma_positions_complete(tokens: Seq<Seq<char>>, slot: Slot, n: int, i: int)
    requires
        0 <= n <= tokens.len(),
    ensures
        positions(tokens, slot, n).contains(i) <==> (0 <= i < n && operator_of(tokens[i]) is None
            && slot_of(tokens, i) == slot),
    decreases n,
{
    if n > 0 {
        lemma_positions_complete(tokens, slot, n - 1, i);
        let before = positions(tokens, slot, n - 1);
        let now = positions(tokens, slot, n);
        if operator_of(tokens[n - 1]) is None && slot_of(tokens, n - 1) == slot {
            assert(now == before.push(n - 1));
            assert(now[now.len() - 1] == n - 1);
            if before.contains(i) {
                let k = choose|k: int| 0 <= k < before.len() && before[k] == i;
                assert(now[k] == i);
            }
            if now.contains(i) && i != n - 1 {
                let k = choose|k: int| 0 <= k < now.len() && now[k] == i;
                assert(before[k] == i);
            }
        }
    }
}

/// Every token that is no operator lands in the list of its slot and in no
/// other of the five.
pub proof fn lemma_every_operand_routed_once(tokens: Seq<Seq<char>>, i: int, other: Slot)
    requires
        0 <= i < tokens.len(),
        operator_of(tokens[i]) is None,
    ensures
        positions(tokens, slot_of(tokens, i), tokens.len() as int).contains(i),
        other != slot_of(tokens, i) ==> !positions(tokens, other, tokens.len() as int).contains(i),
{
    lemma_positions_complete(tokens, slot_of(tokens, i), tokens.len() as int, i);
    lemma_positions_complete(tokens, other, tokens.len() as int, i);
}

/// No operator is among the command and its arguments, nor among the targets.
pub proof fn lemma_routed_holds_no_operator(tokens: Seq<Seq<char>>, slot: Slot, n: int, k: int)
    requires
        0 <= n <= tokens.len(),
        0 <= k < routed(tokens, slot, n).len(),
    ensures
        operator_of(routed(tokens, slot, n)[k]) is None,
    decreases n,
{
    if n > 0 {
        if k < routed(tokens, slot, n - 1).len() {
            lemma_routed_holds_no_operator(tokens, slot, n - 1, k);
        }
    }
}

/// An operator at the very end, behind a token that is no operator or behind
/// nothing, changes nothing: the split is that of the tokens before it.
pub proof fn lemma_dangling_operator_dropped(tokens: Seq<Seq<char>>, operator: Seq<char>)
    requires
        operator_of(operator) is Some,
        tokens.len() > 0 ==> operator_of(tokens.last()) is None,
    ensures
        split_of(tokens.push(operator)) == split_of(tokens),
{
    let longer = tokens.push(operator);
    let n = tokens.len() as int;
    lemma_first_clash_reads_prefix(tokens, longer, n);
    assert(!clash_at(longer, n));
    lemma_routed_reads_prefix(tokens, longer, Slot::Command, n);
    lemma_routed_reads_prefix(tokens, longer, Slot::Target(Redirect::StdoutTruncate), n);
    lemma_routed_reads_prefix(tokens, longer, Slot::Target(Redirect::StdoutAppend), n);
    lemma_routed_reads_prefix(tokens, longer, Slot::Target(Redirect::StderrTruncate), n);
    lemma_routed_reads_prefix(tokens, longer, Slot::Target(Redirect::StderrAppend), n);
    if let Some(i) = first_clash(tokens, n) {
        lemma_first_clash_is_least(tokens, n);
        assert(longer[i] == tokens[i]);
    }
}

/// The first clash below `n` depends on the first `n` tokens only.
pub proof fn lemma_first_clash_reads_prefix(a: Seq<Seq<char>>, b: Seq<Seq<char>>, n: int)
    requires
        0 <= n <= a.len() <= b.len(),
        forall|i: int| 0 <= i < a.len() ==> a[i] == b[i],
    ensures
        first_clash(a, n) == first_clash(b, n),
    decreases n,
{
    if n > 0 {
        lemma_first_clash_reads_prefix(a, b, n - 1);
    }
}

/// The list of a slot among the first `n` depends on the first `n` tokens only.
pub proof fn lemma_routed_reads_prefix(a: Seq<Seq<char>>, b: Seq<Seq<char>>, slot: Slot, n: int)
    requires
        0 <= n <= a.len() <= b.len(),
        forall|i: int| 0 <= i < a.len() ==> a[i] == b[i],
    ensures
        routed(a, slot, n) == routed(b, slot, n),
    decreases n,
{
    if n > 0 {
        lemma_routed_reads_prefix(a, b, slot, n - 1);
    }
}

/// Where the command and its arguments need no quoting, joining them with
/// single spaces and tokenizing the line gives them back.
pub proof fn lemma_cmd_args_round_trip(tokens: Seq<Seq<char>>, split: SplitModel)
    requires
        split_of(tokens) == Ok::<SplitModel, Seq<char>>(split),
        forall|i: int| 0 <= i < split.cmd_args.len() ==> is_bare_word(#[trigger] split.cmd_args[i]),
    ensures
        tokens_of(join(split.cmd_args, seq![' '])) == Some(split.cmd_args),
{
    lemma_bare_words_round_trip(split.cmd_args);
}

/// For a line without quotes and backslashes: the command and its arguments,
/// joined with single spaces and tokenized once more, come back unchanged.
pub proof fn lemma_unquoted_line_round_trip(line: Seq<char>)
    requires
        is_unquoted(line),
    ensures
        tokens_of(line) matches Some(tokens) && (split_of(tokens) matches Ok(split) ==> tokens_of(
            join(split.cmd_args, seq![' ']),
        ) == Some(split.cmd_args)),
{
    lemma_unquoted_tokens_are_bare(line);
    let tokens = tokens_of(line)->0;
    if let Ok(split) = split_of(tokens) {
        let n = tokens.len() as int;
        lemma_routed_in_order(tokens, Slot::Command, n);
        let at = positions(tokens, Slot::Command, n);
        assert forall|i: int| 0 <= i < split.cmd_args.len() implies is_bare_word(
            #[trigger] split.cmd_args[i],
        ) by {
            assert(split.cmd_args[i] == tokens[at[i]]);
        }
        lemma_bare_words_round_trip(split.cmd_args);
    }
}

} // verus!
