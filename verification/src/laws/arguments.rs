//! Laws of the arguments of commands: of a flag that takes one value the last one counts, of a flag
//! that takes many all count, in their order.
use crate::cli::{
    artifact_args_from, command_among, compile_args_from, has_arg, is_overridden, next_arg,
    no_compile_args, override_parts, plain_args, run_args_from, ArtifactArgs, CommandView,
    CompileArgs, CompileCommandView, MigrateView,
};
use vstd::prelude::*;

verus! {

/// Flags with their values, one after the other.
pub open spec fn flat(flags: Seq<(Seq<char>, Seq<char>)>) -> Seq<Seq<char>> {
    Seq::new(
        2 * flags.len(),
        |i: int|
            if i % 2 == 0 {
                flags[i / 2].0
            } else {
                flags[i / 2].1
            },
    )
}

/// Whether a value is the last one that is given for a flag.
pub open spec fn is_last(
    flags: Seq<(Seq<char>, Seq<char>)>,
    flag: Seq<char>,
    value: Seq<char>,
    n: int,
) -> bool {
    exists|k: int|
        0 <= k < n && #[trigger] flags[k] == (flag, value) && forall|j: int|
            k < j < n ==> (#[trigger] flags[j]).0 != flag
}

/// The values that are given for a flag, in their order.
pub open spec fn all(flags: Seq<(Seq<char>, Seq<char>)>, flag: Seq<char>) -> Seq<Seq<char>> {
    flags.filter(|pair: (Seq<char>, Seq<char>)| pair.0 == flag).map_values(
        |pair: (Seq<char>, Seq<char>)| pair.1,
    )
}

spec fn last(flags: Seq<(Seq<char>, Seq<char>)>, flag: Seq<char>, n: int) -> Option<Seq<char>>
    decreases n,
{
    if n <= 0 {
        None
    } else if flags[n - 1].0 == flag {
        Some(flags[n - 1].1)
    } else {
        last(flags, flag, n - 1)
    }
}

proof fn last_is(flags: Seq<(Seq<char>, Seq<char>)>, flag: Seq<char>, n: int)
    requires
        0 <= n <= flags.len(),
    ensures
        match last(flags, flag, n) {
            Some(value) => is_last(flags, flag, value, n),
            None => forall|k: int| 0 <= k < n ==> (#[trigger] flags[k]).0 != flag,
        },
    decreases n,
{
    if n > 0 {
        last_is(flags, flag, n - 1);
        if flags[n - 1].0 == flag {
            assert(flags[n - 1] == (flag, flags[n - 1].1));
        } else if let Some(value) = last(flags, flag, n - 1) {
            let k = choose|k: int|
                0 <= k < n - 1 && #[trigger] flags[k] == (flag, value) && forall|j: int|
                    k < j < n - 1 ==> (#[trigger] flags[j]).0 != flag;
            assert(flags[k] == (flag, value));
        }
    }
}

proof fn all_grows(flags: Seq<(Seq<char>, Seq<char>)>, flag: Seq<char>, n: int)
    requires
        0 < n <= flags.len(),
    ensures
        all(flags.take(n), flag) == if flags[n - 1].0 == flag {
            all(flags.take(n - 1), flag).push(flags[n - 1].1)
        } else {
            all(flags.take(n - 1), flag)
        },
{
    reveal(Seq::filter);
    assert(flags.take(n).drop_last() =~= flags.take(n - 1));
    assert(flags.take(n).last() == flags[n - 1]);
    assert(all(flags.take(n), flag) =~= if flags[n - 1].0 == flag {
        all(flags.take(n - 1), flag).push(flags[n - 1].1)
    } else {
        all(flags.take(n - 1), flag)
    });
}

spec fn read(flags: Seq<(Seq<char>, Seq<char>)>, n: int) -> CompileArgs {
    CompileArgs {
        program: last(flags, "--program"@, n),
        output: last(flags, "--output"@, n),
        roots: all(flags.take(n), "--rulespec-root"@),
        provisions: all(flags.take(n), "--corpus-provisions"@),
    }
}

proof fn flags_differ()
    ensures
        "--program"@ != "--output"@,
        "--program"@ != "--rulespec-root"@,
        "--program"@ != "--corpus-provisions"@,
        "--output"@ != "--rulespec-root"@,
        "--output"@ != "--corpus-provisions"@,
        "--rulespec-root"@ != "--corpus-provisions"@,
{
    reveal_strlit("--program");
    reveal_strlit("--output");
    reveal_strlit("--rulespec-root");
    reveal_strlit("--corpus-provisions");
    assert("--program"@.len() == 9);
    assert("--output"@.len() == 8);
    assert("--rulespec-root"@.len() == 15);
    assert("--corpus-provisions"@.len() == 19);
}

/// Whether a flag is one that takes a value when a program is compiled.
pub open spec fn takes_a_value(flag: Seq<char>) -> bool {
    flag == "--program"@ || flag == "--output"@ || flag == "--rulespec-root"@ || flag
        == "--corpus-provisions"@
}

proof fn read_to_the_end(flags: Seq<(Seq<char>, Seq<char>)>, k: int)
    requires
        0 <= k <= flags.len(),
        forall|i: int| 0 <= i < flags.len() ==> takes_a_value((#[trigger] flags[i]).0),
    ensures
        compile_args_from(flat(flags), (2 * k) as nat, read(flags, k)) == compile_args_from(
            flat(flags),
            (2 * flags.len()) as nat,
            read(flags, flags.len() as int),
        ),
    decreases flags.len() - k,
{
    if k < flags.len() {
        read_to_the_end(flags, k + 1);
        flags_differ();
        all_grows(flags, "--rulespec-root"@, k + 1);
        all_grows(flags, "--corpus-provisions"@, k + 1);
        let args = flat(flags);
        assert(takes_a_value(flags[k].0));
        assert(args[2 * k] == flags[k].0);
        assert(args[2 * k + 1] == flags[k].1);
        assert(next_arg(args, (2 * k) as nat) == Some(flags[k].1));
        assert(((2 * k) as nat + 2) as nat == (2 * (k + 1)) as nat);
    }
}

/// A program is compiled from the path that is given last to the path that is given last, against
/// all the roots and provisions that are given, in their order; without one of the two paths it is
/// refused.
pub proof fn the_last_paths_and_all_roots_count(flags: Seq<(Seq<char>, Seq<char>)>)
    requires
        forall|i: int| 0 <= i < flags.len() ==> takes_a_value((#[trigger] flags[i]).0),
    ensures
        match compile_args_from(flat(flags), 0, no_compile_args()) {
            Ok(CompileCommandView::Compile { program, output, roots, provisions }) => {
                &&& is_last(flags, "--program"@, program, flags.len() as int)
                &&& is_last(flags, "--output"@, output, flags.len() as int)
                &&& roots == all(flags, "--rulespec-root"@)
                &&& provisions == all(flags, "--corpus-provisions"@)
            },
            Ok(CompileCommandView::Help) => false,
            Err(_) => (forall|k: int|
                0 <= k < flags.len() ==> (#[trigger] flags[k]).0 != "--program"@) || (forall|k: int|
                0 <= k < flags.len() ==> (#[trigger] flags[k]).0 != "--output"@),
        },
{
    let n = flags.len() as int;
    reveal(Seq::filter);
    assert(flags.take(0).len() == 0);
    assert(all(flags.take(0), "--rulespec-root"@) =~= Seq::empty());
    assert(all(flags.take(0), "--corpus-provisions"@) =~= Seq::empty());
    assert(read(flags, 0) == no_compile_args());
    read_to_the_end(flags, 0);
    assert(flags.take(n) =~= flags);
    last_is(flags, "--program"@, n);
    last_is(flags, "--output"@, n);
}

proof fn runs_to_the_end(flags: Seq<(Seq<char>, Seq<char>)>, k: int, artifact: Option<Seq<char>>)
    requires
        0 <= k <= flags.len(),
        forall|i: int| 0 <= i < flags.len() ==> (#[trigger] flags[i]).0 == "--artifact"@,
    ensures
        k < flags.len() ==> run_args_from(flat(flags), (2 * k) as nat, artifact) == Ok::<
            Seq<char>,
            Seq<char>,
        >(flags.last().1),
    decreases flags.len() - k,
{
    if k < flags.len() {
        let args = flat(flags);
        runs_to_the_end(flags, k + 1, Some(flags[k].1));
        assert(flags[k].0 == "--artifact"@);
        assert(args[2 * k] == flags[k].0);
        assert(args[2 * k + 1] == flags[k].1);
        assert(next_arg(args, (2 * k) as nat) == Some(flags[k].1));
        assert(((2 * k) as nat + 2) as nat == (2 * (k + 1)) as nat);
        if k + 1 == flags.len() {
            assert(run_args_from(args, (2 * (k + 1)) as nat, Some(flags[k].1)) == Ok::<
                Seq<char>,
                Seq<char>,
            >(flags[k].1));
        }
    }
}

/// A compiled program is run from the path that is given last; without one, or with an argument that
/// is not known, nothing is run.
pub proof fn the_last_artifact_is_run(flags: Seq<(Seq<char>, Seq<char>)>, other: Seq<char>)
    requires
        forall|i: int| 0 <= i < flags.len() ==> (#[trigger] flags[i]).0 == "--artifact"@,
    ensures
        flags.len() > 0 ==> run_args_from(flat(flags), 0, None) == Ok::<Seq<char>, Seq<char>>(
            flags.last().1,
        ),
        flags.len() == 0 ==> run_args_from(flat(flags), 0, None) is Err,
        other != "--artifact"@ ==> run_args_from(seq![other], 0, None) is Err,
{
    runs_to_the_end(flags, 0, None);
}

proof fn plain_are(args: Seq<Seq<char>>, i: nat, n: nat, flags: Seq<Seq<char>>)
    requires
        i <= n <= args.len(),
    ensures
        plain_args(args, i, n, flags) == args.subrange(i as int, n as int).filter(
            |arg: Seq<char>| !flags.contains(arg),
        ),
    decreases n,
{
    reveal(Seq::filter);
    let some = args.subrange(i as int, n as int);
    if n > i {
        plain_are(args, i, (n - 1) as nat, flags);
        assert(some.drop_last() =~= args.subrange(i as int, n - 1));
        assert(some.last() == args[n - 1]);
    } else {
        assert(some =~= Seq::empty());
    }
}

/// The paths of a command are its arguments that are none of its flags, in their order.
pub proof fn paths_are_the_arguments_that_are_no_flags(
    args: Seq<Seq<char>>,
    i: nat,
    flags: Seq<Seq<char>>,
    flag: Seq<char>,
)
    requires
        i <= args.len(),
    ensures
        plain_args(args, i, args.len(), flags) == args.skip(i as int).filter(
            |arg: Seq<char>| !flags.contains(arg),
        ),
        has_arg(args, i, args.len(), flag) <==> args.skip(i as int).contains(flag),
{
    plain_are(args, i, args.len(), flags);
    assert(args.subrange(i as int, args.len() as int) =~= args.skip(i as int));
    if has_arg(args, i, args.len(), flag) {
        let k = choose|k: int| i <= k < args.len() && #[trigger] args[k] == flag;
        assert(args.skip(i as int)[k - i] == flag);
    }
    if args.skip(i as int).contains(flag) {
        let k = choose|k: int| 0 <= k < args.skip(i as int).len() && args.skip(i as int)[k] == flag;
        assert(args[i + k] == flag);
    }
}

/// A name calls the first command that has it, as its name or as an alias.
pub proof fn a_name_calls_the_first_command_that_has_it(
    list: Seq<CommandView>,
    name: Seq<char>,
    n: nat,
)
    requires
        n <= list.len(),
    ensures
        match command_among(list, name, n) {
            Some(command) => exists|i: int|
                0 <= i < n && (#[trigger] list[i]).command == command && (list[i].name == name
                    || list[i].aliases.contains(name)) && forall|j: int|
                    0 <= j < i ==> (#[trigger] list[j]).name != name && !list[j].aliases.contains(
                        name,
                    ),
            None => forall|i: int|
                0 <= i < n ==> (#[trigger] list[i]).name != name && !list[i].aliases.contains(name),
        },
    decreases n,
{
    if n > 0 {
        a_name_calls_the_first_command_that_has_it(list, name, (n - 1) as nat);
    }
}

/// Whether a flag is one that takes a value when an artifact is migrated.
pub open spec fn takes_an_artifact_value(flag: Seq<char>) -> bool {
    flag == "--artifact"@ || flag == "--output"@ || flag == "--relation-entities"@
}

/// The relations and kinds that arguments name.
pub open spec fn parsed(values: Seq<Seq<char>>) -> Seq<(Seq<char>, Seq<Seq<char>>)> {
    values.map_values(|value: Seq<char>| override_parts(value)->Some_0)
}

spec fn given(flags: Seq<(Seq<char>, Seq<char>)>, n: int) -> ArtifactArgs {
    ArtifactArgs {
        artifact: last(flags, "--artifact"@, n),
        output: last(flags, "--output"@, n),
        overrides: parsed(all(flags.take(n), "--relation-entities"@)),
        json: false,
    }
}

proof fn artifact_flags_differ()
    ensures
        "--artifact"@ != "--output"@,
        "--artifact"@ != "--relation-entities"@,
        "--output"@ != "--relation-entities"@,
        "--json"@ != "--relation-entities"@,
{
    reveal_strlit("--artifact");
    reveal_strlit("--output");
    reveal_strlit("--relation-entities");
    reveal_strlit("--json");
    assert("--artifact"@.len() == 10);
    assert("--output"@.len() == 8);
    assert("--relation-entities"@.len() == 19);
    assert("--json"@.len() == 6);
}

proof fn all_are_given(flags: Seq<(Seq<char>, Seq<char>)>, flag: Seq<char>, n: int)
    requires
        0 <= n <= flags.len(),
    ensures
        forall|m: int|
            0 <= m < all(flags.take(n), flag).len() ==> exists|i: int|
                0 <= i < n && #[trigger] flags[i] == (flag, #[trigger] all(flags.take(n), flag)[m]),
    decreases n,
{
    if n > 0 {
        all_are_given(flags, flag, n - 1);
        all_grows(flags, flag, n);
        let before = all(flags.take(n - 1), flag);
        let list = all(flags.take(n), flag);
        assert forall|m: int| 0 <= m < list.len() implies exists|i: int|
            0 <= i < n && #[trigger] flags[i] == (flag, #[trigger] list[m]) by {
            if m < before.len() {
                assert(list[m] == before[m]);
                let i = choose|i: int|
                    0 <= i < n - 1 && #[trigger] flags[i] == (flag, before[m]);
                assert(flags[i] == (flag, list[m]));
            } else {
                assert(flags[n - 1] == (flag, list[m]));
            }
        }
    } else {
        reveal(Seq::filter);
        assert(flags.take(0).len() == 0);
        assert(all(flags.take(0), flag).len() == 0);
    }
}

/// Whether flags name their kinds readably, and those of no relation twice.
pub open spec fn names_each_relation_once(flags: Seq<(Seq<char>, Seq<char>)>) -> bool {
    &&& forall|i: int|
        0 <= i < flags.len() && (#[trigger] flags[i]).0 == "--relation-entities"@ ==> override_parts(
            flags[i].1,
        ) is Some
    &&& forall|i: int, j: int|
        0 <= i < j < flags.len() && (#[trigger] flags[i]).0 == "--relation-entities"@ && (
        #[trigger] flags[j]).0 == "--relation-entities"@ ==> override_parts(flags[i].1)->Some_0.0
            != override_parts(flags[j].1)->Some_0.0
}

proof fn given_to_the_end(flags: Seq<(Seq<char>, Seq<char>)>, k: int)
    requires
        0 <= k <= flags.len(),
        forall|i: int| 0 <= i < flags.len() ==> takes_an_artifact_value((#[trigger] flags[i]).0),
        names_each_relation_once(flags),
    ensures
        artifact_args_from(flat(flags), (2 * k) as nat, given(flags, k)) == artifact_args_from(
            flat(flags),
            (2 * flags.len()) as nat,
            given(flags, flags.len() as int),
        ),
    decreases flags.len() - k,
{
    if k < flags.len() {
        given_to_the_end(flags, k + 1);
        artifact_flags_differ();
        let flag = "--relation-entities"@;
        all_grows(flags, flag, k + 1);
        all_are_given(flags, flag, k);
        let args = flat(flags);
        let before = all(flags.take(k), flag);
        assert(takes_an_artifact_value(flags[k].0));
        assert(args[2 * k] == flags[k].0);
        assert(args[2 * k + 1] == flags[k].1);
        assert(next_arg(args, (2 * k) as nat) == Some(flags[k].1));
        assert(((2 * k) as nat + 2) as nat == (2 * (k + 1)) as nat);
        if flags[k].0 == flag {
            let relation = override_parts(flags[k].1)->Some_0.0;
            if is_overridden(parsed(before), relation) {
                let m = choose|m: int|
                    0 <= m < parsed(before).len() && (#[trigger] parsed(before)[m]).0 == relation;
                let i = choose|i: int| 0 <= i < k && #[trigger] flags[i] == (flag, before[m]);
                assert(flags[i].0 == flag);
                assert(false);
            }
            assert(parsed(before.push(flags[k].1)) =~= parsed(before).push(
                override_parts(flags[k].1)->Some_0,
            ));
        }
        reveal_strlit("--json");
        reveal_strlit("--output");
        reveal_strlit("--artifact");
        assert("--json"@ != "--output"@);
        assert("--json"@ != "--artifact"@);
    }
}

/// An artifact is migrated from the path that is given last to the path that is given last, if any,
/// with the kinds that are given for each relation, in their order; without a path to migrate it is
/// refused.
pub proof fn the_last_artifact_is_migrated_with_all_its_kinds(
    flags: Seq<(Seq<char>, Seq<char>)>,
)
    requires
        forall|i: int| 0 <= i < flags.len() ==> takes_an_artifact_value((#[trigger] flags[i]).0),
        names_each_relation_once(flags),
    ensures
        match artifact_args_from(
            flat(flags),
            0,
            (ArtifactArgs { artifact: None, output: None, overrides: Seq::empty(), json: false }),
        ) {
            Ok(MigrateView::Artifact { artifact, output, overrides, json }) => {
                &&& is_last(flags, "--artifact"@, artifact, flags.len() as int)
                &&& match output {
                    Some(path) => is_last(flags, "--output"@, path, flags.len() as int),
                    None => forall|k: int|
                        0 <= k < flags.len() ==> (#[trigger] flags[k]).0 != "--output"@,
                }
                &&& overrides == parsed(all(flags, "--relation-entities"@))
                &&& !json
            },
            Ok(_) => false,
            Err(_) => forall|k: int|
                0 <= k < flags.len() ==> (#[trigger] flags[k]).0 != "--artifact"@,
        },
{
    let n = flags.len() as int;
    reveal(Seq::filter);
    assert(flags.take(0).len() == 0);
    assert(all(flags.take(0), "--relation-entities"@) =~= Seq::empty());
    assert(parsed(all(flags.take(0), "--relation-entities"@)) =~= Seq::empty());
    given_to_the_end(flags, 0);
    assert(flags.take(n) =~= flags);
    last_is(flags, "--artifact"@, n);
    last_is(flags, "--output"@, n);
}

} // verus!
