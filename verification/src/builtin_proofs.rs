//! What holds of every command: which tokens name builtins, that a command
//! only ever adds to the buffers, and what `type`, `cd` and completion say
//! in general.

use crate::builtin::{
    builtin_names, candidates, cd_of, command_of, completions_of, run_of, type_line_of,
    CommandModel, EffectModel, HostModel,
};
use crate::output::OutputModel;
use crate::resolve::{resolved, EntryModel};
use vstd::prelude::*;

verus! {

/// A token names a builtin exactly when it is one of the five names; any
/// other token names the executable that is called as the token says.
pub proof fn lemma_builtin_iff_named(token: Seq<char>)
    ensures
        builtin_names().contains(token) <==> !(command_of(token) is Executable),
        command_of(token) matches CommandModel::Executable { name } ==> name == token,
{
    let names = builtin_names();
    assert(names[0] == seq!['e', 'x', 'i', 't']);
    assert(names[1] == seq!['e', 'c', 'h', 'o']);
    assert(names[2] == seq!['t', 'y', 'p', 'e']);
    assert(names[3] == seq!['p', 'w', 'd']);
    assert(names[4] == seq!['c', 'd']);
    if names.contains(token) {
        let i = choose|i: int| 0 <= i < names.len() && names[i] == token;
        assert(0 <= i < 5);
    }
}

/// `type` calls every builtin name a shell builtin, whatever the search path
/// holds.
pub proof fn lemma_type_of_builtin(arg: Seq<char>, search: Seq<Seq<EntryModel>>)
    requires
        builtin_names().contains(arg),
    ensures
        type_line_of(arg, search) == arg + " is a shell builtin"@,
{
    lemma_builtin_iff_named(arg);
}

/// `type` reports a name that is no builtin and resolves to nothing as not
/// found, and a name that resolves with the path it resolves to.
pub proof fn lemma_type_of_other(arg: Seq<char>, search: Seq<Seq<EntryModel>>)
    requires
        !builtin_names().contains(arg),
    ensures
        type_line_of(arg, search) == match resolved(search, arg) {
            Some(path) => arg + " is "@ + path,
            None => arg + ": not found"@,
        },
{
    lemma_builtin_iff_named(arg);
}

/// `cd ~` asks for the home directory as the host gave it, even where that
/// is empty, and writes nothing.
pub proof fn lemma_cd_to_home(before: OutputModel, home: Seq<char>)
    ensures
        cd_of(before, seq![seq!['~']], home) == (before, EffectModel::ChangeDir(home)),
{
}

/// A command only adds to the two buffers: what they held before is still
/// there, at the front.
pub proof fn lemma_run_only_appends(
    command: CommandModel,
    before: OutputModel,
    args: Seq<Seq<char>>,
    host: HostModel,
)
    ensures
        before.out.is_prefix_of(run_of(command, before, args, host).0.out),
        before.err.is_prefix_of(run_of(command, before, args, host).0.err),
{
}

/// The candidates among the first `n` names are those that begin with the
/// line, each with a space behind it.
pub proof fn lemma_candidates(names: Seq<Seq<char>>, line: Seq<char>, n: int, name: Seq<char>)
    requires
        0 <= n <= names.len(),
    ensures
        candidates(names, line, n).contains(name + seq![' ']) <==> (line.is_prefix_of(name)
            && names.take(n).contains(name)),
    decreases n,
{
    let found = candidates(names, line, n);
    let wanted = name + seq![' '];
    if n > 0 {
        lemma_candidates(names, line, n - 1, name);
        let before = candidates(names, line, n - 1);
        let last = names[n - 1];
        let shorter = names.take(n - 1);
        let longer = names.take(n);
        assert(shorter =~= longer.drop_last());
        assert(longer.last() == last);
        if longer.contains(name) {
            let i = choose|i: int| 0 <= i < longer.len() && longer[i] == name;
            if i < n - 1 {
                assert(shorter[i] == name);
            }
        }
        if shorter.contains(name) {
            let i = choose|i: int| 0 <= i < shorter.len() && shorter[i] == name;
            assert(longer[i] == name);
        }
        if before.contains(wanted) {
            let i = choose|i: int| 0 <= i < before.len() && before[i] == wanted;
            if line.is_prefix_of(last) {
                assert(found[i] == wanted);
            }
        }
        if line.is_prefix_of(last) {
            assert(found == before.push(last + seq![' ']));
            assert(found[found.len() - 1] == last + seq![' ']);
            if found.contains(wanted) {
                let i = choose|i: int| 0 <= i < found.len() && found[i] == wanted;
                if i < before.len() {
                    assert(before[i] == wanted);
                } else {
                    assert(last + seq![' '] == name + seq![' ']);
                    assert((last + seq![' ']).drop_last() =~= last);
                    assert((name + seq![' ']).drop_last() =~= name);
                }
            }
            if last == name {
                assert(found.contains(wanted));
            }
        }
    }
}

/// A completion is offered for exactly those builtin names that begin with
/// what was typed.
pub proof fn lemma_completions(line: Seq<char>, name: Seq<char>)
    ensures
        completions_of(line).contains(name + seq![' ']) <==> (line.is_prefix_of(name)
            && builtin_names().contains(name)),
{
    let names = builtin_names();
    lemma_candidates(names, line, names.len() as int, name);
    assert(names.take(names.len() as int) =~= names);
}

} // verus!
