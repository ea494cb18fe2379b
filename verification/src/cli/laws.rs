//! What each command, option and path comes to.

use super::command::{
    command_of, is_option, one_argument, root_from, run_file, unknown_command, CommandModel,
};
use super::headless::{listed, SeenModel};
use super::options::{
    button_named, buttons_named, listed_names, read_from, unexpected, Draft,
};
use super::paths::{
    base, components, components_in, extension_start, file_name, is_bundle, last_dot, path_pieces,
    plausible_workspace, stem, unified,
};
use super::{render_audio, shot};
use crate::text::{capitals, decimal, lowercase, pieces, split_on, trimmed, unsigned_value};
use crate::text_laws::{
    law_a_text_is_cut_at_the_character, law_a_text_without_the_character_is_whole,
};
use vstd::prelude::*;

verus! {

/// A name's extension is what follows its last dot, where something stands
/// before it; the stem is what does.
pub proof fn law_a_name_ends_with_its_extension(before: Seq<char>, extension: Seq<char>)
    requires
        before.len() > 0,
        !extension.contains('.'),
    ensures
        extension_start(before.push('.') + extension) == Some((before.len() + 1) as int),
        stem(before.push('.') + extension) == before,
{
    let name = before.push('.') + extension;
    lemma_last_dot(name, before.len() as int, name.len() as int);
    assert(name.take(before.len() as int) =~= before);
}

proof fn lemma_last_dot(name: Seq<char>, dot: int, i: int)
    requires
        0 <= dot < i <= name.len(),
        name[dot] == '.',
        forall|j: int| dot < j < name.len() ==> name[j] != '.',
    ensures
        last_dot(name, i) == Some(dot),
    decreases i,
{
    if i - 1 > dot {
        lemma_last_dot(name, dot, i - 1);
    }
}

/// A name without a dot has no extension, and neither has one whose only dot
/// comes first; each is its own stem.
pub proof fn law_a_name_may_have_no_extension(name: Seq<char>)
    requires
        !name.contains('.'),
    ensures
        extension_start(name) is None,
        stem(name) == name,
        extension_start(seq!['.'] + name) is None,
        stem(seq!['.'] + name) == seq!['.'] + name,
{
    lemma_no_dot(name, name.len() as int);
    let hidden = seq!['.'] + name;
    lemma_last_dot(hidden, 0, hidden.len() as int);
}

proof fn lemma_no_dot(name: Seq<char>, i: int)
    requires
        !name.contains('.'),
        i <= name.len(),
    ensures
        last_dot(name, i) is None,
    decreases i,
{
    if i > 0 {
        assert(name.contains(name[i - 1]));
        lemma_no_dot(name, i - 1);
    }
}

/// A bundle is named with the extension of one, in capitals or not.
pub proof fn law_a_bundle_is_named_as_one(before: Seq<char>, extension: Seq<char>)
    requires
        before.len() > 0,
        !extension.contains('.'),
    ensures
        is_bundle(before.push('.') + extension) <==> lowercase(extension) == "app"@,
{
    law_a_name_ends_with_its_extension(before, extension);
    let name = before.push('.') + extension;
    assert(name.skip((before.len() + 1) as int) =~= extension);
}

/// The file a path names is what follows its last slash, where that is a name.
pub proof fn law_a_path_ends_with_its_file(dir: Seq<char>, name: Seq<char>)
    requires
        name.len() > 0,
        !name.contains('/'),
        name != "."@,
        name != ".."@,
    ensures
        file_name(dir.push('/') + name, false) == Some(name),
        file_name(name, false) == Some(name),
        components(dir.push('/') + name, false) == components(dir, false).push(name),
{
    reveal_strlit(".");
    assert("."@ =~= seq!['.']);
    let path = dir.push('/') + name;
    law_a_text_is_cut_at_the_character(dir, '/', name);
    law_a_text_without_the_character_is_whole(name, '/');
    let a = split_on(dir, '/');
    let all = split_on(path, '/');
    assert(all =~= a.push(name));
    lemma_some_piece(dir, '/', dir.len() as int);
    lemma_same_components(a, all, a.len() as int);
    let one = seq![name];
    assert(components_in(one, 1) =~= seq![name]) by {
        assert(components_in(one, 0).len() == 0);
    }
}

proof fn lemma_some_piece(s: Seq<char>, c: char, n: int)
    ensures
        pieces(s, c, n).len() >= 1,
    decreases n,
{
    if n > 0 {
        lemma_some_piece(s, c, n - 1);
    }
}

proof fn lemma_same_components(a: Seq<Seq<char>>, b: Seq<Seq<char>>, n: int)
    requires
        0 <= n <= a.len() <= b.len(),
        forall|i: int| 0 <= i < a.len() ==> a[i] == #[trigger] b[i],
    ensures
        components_in(a, n) == components_in(b, n),
    decreases n,
{
    if n > 0 {
        lemma_same_components(a, b, n - 1);
        assert(a[n - 1] == b[n - 1]);
    }
}

/// A slash at the end of a path, a doubled one and a dot between two change
/// nothing.
pub proof fn law_empty_parts_of_a_path_do_not_count(dir: Seq<char>)
    ensures
        components(dir.push('/'), false) == components(dir, false),
        components(dir.push('/').push('.'), false) == components(dir, false),
{
    let a = split_on(dir, '/');
    lemma_some_piece(dir, '/', dir.len() as int);
    let none = Seq::<char>::empty();
    law_a_text_is_cut_at_the_character(dir, '/', none);
    law_a_text_without_the_character_is_whole(none, '/');
    assert(dir.push('/') + none =~= dir.push('/'));
    assert(split_on(dir.push('/'), '/') =~= a.push(none));
    lemma_same_components(a, a.push(none), a.len() as int);
    let dot = seq!['.'];
    law_a_text_is_cut_at_the_character(dir, '/', dot);
    law_a_text_without_the_character_is_whole(dot, '/');
    assert(dir.push('/') + dot =~= dir.push('/').push('.'));
    assert(split_on(dir.push('/').push('.'), '/') =~= a.push(dot));
    lemma_same_components(a, a.push(dot), a.len() as int);
}

/// A path that only goes up, or nowhere, names no file.
pub proof fn law_a_way_up_names_no_file(dir: Seq<char>)
    ensures
        file_name(dir.push('/') + ".."@, false) is None,
        file_name(Seq::empty(), false) is None,
        components(Seq::empty(), false).len() == 0,
        components(seq!['/'], false).len() == 0,
{
    reveal_strlit("..");
    let up = ".."@;
    assert(up =~= seq!['.', '.']);
    law_a_text_is_cut_at_the_character(dir, '/', up);
    law_a_text_without_the_character_is_whole(up, '/');
    let a = split_on(dir, '/');
    let all = split_on(dir.push('/') + up, '/');
    assert(all =~= a.push(up));
    assert(components_in(all, all.len() as int).last() == up);
    let none = Seq::<char>::empty();
    law_a_text_without_the_character_is_whole(none, '/');
    assert(components_in(seq![none], 1).len() == 0) by {
        assert(components_in(seq![none], 0).len() == 0);
    }
    law_empty_parts_of_a_path_do_not_count(none);
    assert(none.push('/') =~= seq!['/']);
}

/// On Windows a backslash parts a path as a slash does, and only there.
pub proof fn law_a_backslash_is_a_slash_on_windows(path: Seq<char>, i: int)
    requires
        0 <= i < path.len(),
    ensures
        unified(path, false) == path,
        unified(path, true).len() == path.len(),
        path[i] == '\\' ==> unified(path, true)[i] == '/',
        path[i] != '\\' ==> unified(path, true)[i] == path[i],
        components(unified(path, true), true) == components(path, true),
{
    assert(unified(unified(path, true), true) =~= unified(path, true));
}

/// On Windows the letter of a drive is no part of the path's names, and neither
/// is a share; elsewhere both are.
pub proof fn law_a_drive_is_no_name(letter: char, rest: Seq<char>)
    requires
        'a' <= letter <= 'z' || 'A' <= letter <= 'Z',
        !rest.contains('/'),
        !rest.contains('\\'),
    ensures
        path_pieces(seq![letter, ':'] + rest, true) == seq![rest],
        path_pieces(seq![letter, ':'] + rest, false) == seq![seq![letter, ':'] + rest],
{
    let path = seq![letter, ':'] + rest;
    assert forall|i: int| 0 <= i < path.len() implies path[i] != '\\' && path[i] != '/' by {
        if i >= 2 {
            assert(rest.contains(rest[i - 2]));
            assert(path[i] == rest[i - 2]);
        }
    }
    assert(unified(path, true) =~= path);
    assert(!path.contains('/'));
    law_a_text_without_the_character_is_whole(path, '/');
    assert(path.skip(2) =~= rest);
    assert(seq![path].update(0, rest) =~= seq![rest]);
}

/// A directory is a workspace where it has a name and none of its names is a
/// bundle.
pub proof fn law_a_workspace_has_a_name(dir: Seq<char>, name: Seq<char>)
    requires
        plausible_workspace(dir, false),
        name.len() > 0,
        !name.contains('/'),
        name != "."@,
        name != ".."@,
    ensures
        plausible_workspace(dir.push('/') + name, false) <==> !is_bundle(name),
        !plausible_workspace(Seq::empty(), false),
        !plausible_workspace(seq!['/'], false),
{
    law_a_path_ends_with_its_file(dir, name);
    law_a_way_up_names_no_file(dir);
    let a = components(dir, false);
    let b = components(dir.push('/') + name, false);
    assert(b[a.len() as int] == name);
    assert forall|k: int| 0 <= k < b.len() && !is_bundle(name) implies !is_bundle(
        #[trigger] b[k],
    ) by {
        if k < a.len() {
            assert(b[k] == a[k]);
        }
    }
}

/// Games are kept with the user's documents where there are any, else with the
/// user, else with what is temporary.
pub proof fn law_games_are_kept_with_the_user(home: Seq<char>, temp: Seq<char>)
    ensures
        base(Some(home), true, temp) == seq![home, "Documents"@, "Kessel"@],
        base(Some(home), false, temp) == seq![home, "Kessel"@],
        base(None, true, temp) == seq![temp, "kessel"@],
        base(None, false, temp) == seq![temp, "kessel"@],
{
}

proof fn lemma_button_names_differ()
    ensures
        "LEFT"@.len() == 4 && "LEFT"@[0] == 'L',
        "RIGHT"@.len() == 5 && "RIGHT"@[0] == 'R',
        "UP"@.len() == 2,
        "DOWN"@.len() == 4 && "DOWN"@[0] == 'D',
        "A"@.len() == 1 && "A"@[0] == 'A',
        "B"@.len() == 1 && "B"@[0] == 'B',
        "START"@.len() == 5 && "START"@[0] == 'S',
        "SELECT"@.len() == 6,
{
    reveal_strlit("LEFT");
    reveal_strlit("RIGHT");
    reveal_strlit("UP");
    reveal_strlit("DOWN");
    reveal_strlit("A");
    reveal_strlit("B");
    reveal_strlit("START");
    reveal_strlit("SELECT");
}

/// Each button goes by its name, and nothing else names one.
pub proof fn law_buttons_by_name(name: Seq<char>)
    ensures
        button_named("LEFT"@) == 1,
        button_named("RIGHT"@) == 2,
        button_named("UP"@) == 4,
        button_named("DOWN"@) == 8,
        button_named("A"@) == 16,
        button_named("B"@) == 32,
        button_named("START"@) == 64,
        button_named("SELECT"@) == 128,
        button_named(name) != 0 ==> name == "LEFT"@ || name == "RIGHT"@ || name == "UP"@ || name
            == "DOWN"@ || name == "A"@ || name == "B"@ || name == "START"@ || name == "SELECT"@,
{
    lemma_button_names_differ();
}

/// Naming buttons holds each of them down, and no other: one more name adds its
/// button.
pub proof fn law_named_buttons_are_held(names: Seq<Seq<char>>, name: Seq<char>, i: int)
    requires
        0 <= i < names.len(),
    ensures
        buttons_named(Seq::empty()) == 0,
        buttons_named(names.push(name)) == buttons_named(names) | button_named(name),
        buttons_named(names) & button_named(names[i]) == button_named(names[i]),
    decreases names.len(),
{
    assert(names.push(name).drop_last() =~= names);
    let last = button_named(names.last());
    let before = buttons_named(names.drop_last());
    if i < names.len() - 1 {
        law_named_buttons_are_held(names.drop_last(), name, i);
        let b = button_named(names[i]);
        assert(names.drop_last()[i] == names[i]);
        assert((before | last) & b == b) by (bit_vector)
            requires
                before & b == b,
        ;
    } else {
        assert((before | last) & last == last) by (bit_vector);
    }
}

/// A list of buttons is parted by commas; each name may stand in white space and
/// in small letters.
pub proof fn law_a_list_of_buttons_is_parted_by_commas(a: Seq<char>, b: Seq<char>)
    ensures
        listed_names(a.push(',') + b) == listed_names(a) + listed_names(b),
        !a.contains(',') ==> listed_names(a) == seq![capitals(trimmed(a))],
{
    law_a_text_is_cut_at_the_character(a, ',', b);
    assert(listed_names(a.push(',') + b) =~= listed_names(a) + listed_names(b));
    if !a.contains(',') {
        law_a_text_without_the_character_is_whole(a, ',');
        assert(listed_names(a) =~= seq![capitals(trimmed(a))]);
    }
}

/// What is read from a place on is what would be read of the rest alone.
#[verifier::rlimit(40)]
proof fn lemma_read_shift(a: Seq<Seq<char>>, b: Seq<Seq<char>>, i: int, d: Draft)
    requires
        0 <= i <= b.len(),
    ensures
        read_from(a + b, a.len() + i, d) == read_from(b, i, d),
    decreases b.len() - i,
{
    let all = a + b;
    let n = a.len();
    if i < b.len() {
        assert(all[n + i] == b[i]);
        if i + 1 < b.len() {
            assert(all[n + i + 1] == b[i + 1]);
        }
        let x = b[i];
        if x == "--frames"@ || x == "-n"@ {
            if i + 1 < b.len() {
                if let Some(m) = unsigned_value(b[i + 1], u64::MAX as int) {
                    lemma_read_shift(a, b, i + 2, Draft { frames: m as u64, ..d });
                }
            }
        } else if x == "-o"@ || x == "--out"@ {
            if i + 1 < b.len() {
                lemma_read_shift(a, b, i + 2, Draft { out: Some(b[i + 1]), ..d });
            }
        } else if x == "--buttons"@ {
            if i + 1 < b.len() {
                let bits = buttons_named(listed_names(b[i + 1]));
                lemma_read_shift(a, b, i + 2, Draft { buttons: bits, ..d });
            }
        } else {
            lemma_read_shift(a, b, i + 1, Draft { file: Some(x), ..d });
        }
    }
}

proof fn lemma_options_differ()
    ensures
        "--frames"@.len() == 8 && "--frames"@[0] == '-',
        "-n"@.len() == 2 && "-n"@[0] == '-' && "-n"@[1] == 'n',
        "-o"@.len() == 2 && "-o"@[0] == '-' && "-o"@[1] == 'o',
        "--out"@.len() == 5 && "--out"@[0] == '-',
        "--buttons"@.len() == 9 && "--buttons"@[0] == '-',
{
    reveal_strlit("--frames");
    reveal_strlit("-n");
    reveal_strlit("-o");
    reveal_strlit("--out");
    reveal_strlit("--buttons");
}

/// What is left to read after some arguments, with what they came to.
pub open spec fn options(args: Seq<Seq<char>>, d: Draft) -> Result<Draft, Seq<char>> {
    read_from(args, 0, d)
}

/// Each option sets its own value from the argument behind it, and reading goes
/// on after that; the short form does what the long one does.
#[verifier::rlimit(40)]
pub proof fn law_each_option_sets_its_value(
    value: Seq<char>,
    rest: Seq<Seq<char>>,
    d: Draft,
)
    ensures
        unsigned_value(value, u64::MAX as int) matches Some(n) ==> {
            let e = Draft { frames: n as u64, ..d };
            &&& options(seq!["--frames"@, value] + rest, d) == options(rest, e)
            &&& options(seq!["-n"@, value] + rest, d) == options(rest, e)
        },
        unsigned_value(value, u64::MAX as int) is None ==> {
            &&& options(seq!["--frames"@, value] + rest, d) is Err
            &&& options(seq!["-n"@, value] + rest, d) is Err
        },
        options(seq!["--out"@, value] + rest, d) == options(rest, Draft { out: Some(value), ..d }),
        options(seq!["-o"@, value] + rest, d) == options(rest, Draft { out: Some(value), ..d }),
        buttons_named(listed_names(value)) != 0 ==> options(seq!["--buttons"@, value] + rest, d)
            == options(rest, Draft { buttons: buttons_named(listed_names(value)), ..d }),
        buttons_named(listed_names(value)) == 0 ==> options(
            seq!["--buttons"@, value] + rest,
            d,
        ) is Err,
{
    lemma_options_differ();
    let bits = buttons_named(listed_names(value));
    lemma_option_shift("--out"@, value, rest, Draft { out: Some(value), ..d });
    lemma_option_shift("-o"@, value, rest, Draft { out: Some(value), ..d });
    lemma_option_shift("--buttons"@, value, rest, Draft { buttons: bits, ..d });
    if let Some(n) = unsigned_value(value, u64::MAX as int) {
        lemma_option_shift("--frames"@, value, rest, Draft { frames: n as u64, ..d });
        lemma_option_shift("-n"@, value, rest, Draft { frames: n as u64, ..d });
    } else {
        lemma_option_shift("--frames"@, value, rest, d);
        lemma_option_shift("-n"@, value, rest, d);
    }
}

proof fn lemma_option_shift(name: Seq<char>, value: Seq<char>, rest: Seq<Seq<char>>, e: Draft)
    ensures
        ({
            let all = seq![name, value] + rest;
            &&& all[0] == name
            &&& all[1] == value
            &&& all.len() == rest.len() + 2
            &&& read_from(all, 2, e) == read_from(rest, 0, e)
        }),
{
    lemma_read_shift(seq![name, value], rest, 0, e);
}

/// An option that needs a value behind it is refused without one, and an option
/// that there is none of is refused.
pub proof fn law_an_option_alone_is_refused(option: Seq<char>, rest: Seq<Seq<char>>, d: Draft)
    requires
        option.len() > 0,
        option[0] == '-',
    ensures
        options(seq![option], d) is Err,
        option != "--frames"@ && option != "-n"@ && option != "--out"@ && option != "-o"@ && option
            != "--buttons"@ ==> options(seq![option] + rest, d) == Err::<Draft, Seq<char>>(
            unexpected("option"@, option),
        ),
{
    lemma_options_differ();
    let all = seq![option] + rest;
    assert(all[0] == option);
}

/// What is no option is the file, and there is only one.
pub proof fn law_there_is_one_file(name: Seq<char>, rest: Seq<Seq<char>>, d: Draft)
    requires
        name.len() == 0 || name[0] != '-',
    ensures
        options(Seq::empty(), d) == Ok::<Draft, Seq<char>>(d),
        d.file is None ==> options(seq![name] + rest, d) == options(
            rest,
            Draft { file: Some(name), ..d },
        ),
        d.file is Some ==> options(seq![name] + rest, d) == Err::<Draft, Seq<char>>(
            unexpected("argument"@, name),
        ),
{
    lemma_options_differ();
    let all = seq![name] + rest;
    assert(all[0] == name);
    lemma_read_shift(seq![name], rest, 0, Draft { file: Some(name), ..d });
}

/// A picture is taken of the file given, after as many frames as asked for or
/// sixty, and written where asked for or beside the file's name; without a file
/// it is refused.
pub proof fn law_a_shot_is_what_was_asked_for(args: Seq<Seq<char>>, windows: bool)
    ensures
        ({
            let d = options(args, Draft { file: None, frames: 60, out: None, buttons: 0 });
            match shot::args_of(args, windows) {
                Ok(a) => {
                    &&& d matches Ok(e) && e.file == Some(a.file) && a.frames == e.frames
                        && a.buttons == e.buttons
                    &&& d->Ok_0.out is Some ==> a.out == d->Ok_0.out->0
                    &&& d->Ok_0.out is None ==> a.out == (match file_name(a.file, windows) {
                        Some(n) => stem(n),
                        None => "shot"@,
                    }) + ".png"@
                },
                Err(e) => d == Err::<Draft, Seq<char>>(e) || (d is Ok && d->Ok_0.file is None),
            }
        }),
{
}

/// Sound is rendered of the file given, for as many frames as asked for or a
/// hundred and eighty, and written where asked for or beside the file's name;
/// without a file, or for no frames, it is refused.
pub proof fn law_rendered_sound_is_what_was_asked_for(args: Seq<Seq<char>>, windows: bool)
    ensures
        ({
            let d = options(args, Draft { file: None, frames: 180, out: None, buttons: 0 });
            match render_audio::args_of(args, windows) {
                Ok(a) => {
                    &&& d matches Ok(e) && e.file == Some(a.file) && a.frames == e.frames
                        && a.buttons == e.buttons
                    &&& a.frames > 0
                    &&& d->Ok_0.out is Some ==> a.out == d->Ok_0.out->0
                    &&& d->Ok_0.out is None ==> a.out == (match file_name(a.file, windows) {
                        Some(n) => stem(n),
                        None => "render"@,
                    }) + ".wav"@
                },
                Err(e) => d == Err::<Draft, Seq<char>>(e) || (d is Ok && (d->Ok_0.file is None
                    || d->Ok_0.frames == 0)),
            }
        }),
{
}

/// One argument at most, which is no option: what it is, or that there is none.
pub proof fn law_one_argument_at_most(a: Seq<char>, b: Seq<char>)
    requires
        !is_option(a),
        !is_option(b),
    ensures
        one_argument(Seq::empty()) == Ok::<Option<Seq<char>>, Seq<char>>(None),
        one_argument(seq![a]) == Ok::<Option<Seq<char>>, Seq<char>>(Some(a)),
        one_argument(seq![a, b]) == Err::<Option<Seq<char>>, Seq<char>>(
            unexpected("argument"@, b),
        ),
        run_file(seq![a]) == Ok::<Seq<char>, Seq<char>>(a),
        run_file(Seq::empty()) is Err,
        run_file(seq![a, b]) is Err,
{
    reveal_with_fuel(super::command::first_option, 3);
}

/// A dash makes an option, and it is the first one that is named.
pub proof fn law_a_dash_makes_an_option(a: Seq<char>, args: Seq<Seq<char>>)
    ensures
        is_option(seq!['-'] + a),
        is_option(a) <==> a.len() > 0 && a[0] == '-',
        is_option(a) ==> one_argument(seq![a] + args) == Err::<Option<Seq<char>>, Seq<char>>(
            unexpected("option"@, a),
        ),
{
    let all = seq![a] + args;
    assert(all[0] == a);
}

/// A root is the argument behind its option; the last one given counts, and
/// nothing else is taken.
pub proof fn law_the_last_root_counts(
    dir: Seq<char>,
    rest: Seq<Seq<char>>,
    root: Option<Seq<char>>,
    other: Seq<char>,
)
    requires
        other != "--root"@,
    ensures
        root_from(Seq::empty(), 0, root) == Ok::<Option<Seq<char>>, Seq<char>>(root),
        root_from(seq!["--root"@, dir] + rest, 0, root) == root_from(rest, 0, Some(dir)),
        root_from(seq!["--root"@], 0, root) is Err,
        root_from(seq![other] + rest, 0, root) == Err::<Option<Seq<char>>, Seq<char>>(
            unexpected("argument"@, other),
        ),
{
    let two = seq!["--root"@, dir];
    let all = two + rest;
    assert(all[0] == "--root"@ && all[1] == dir);
    lemma_root_shift(two, rest, 0, Some(dir));
    assert((seq![other] + rest)[0] == other);
}

proof fn lemma_root_shift(
    a: Seq<Seq<char>>,
    b: Seq<Seq<char>>,
    i: int,
    root: Option<Seq<char>>,
)
    requires
        0 <= i <= b.len(),
    ensures
        root_from(a + b, a.len() + i, root) == root_from(b, i, root),
    decreases b.len() - i,
{
    let all = a + b;
    if i < b.len() {
        assert(all[a.len() + i] == b[i]);
        if b[i] == "--root"@ && i + 1 < b.len() {
            assert(all[a.len() + i + 1] == b[i + 1]);
            lemma_root_shift(a, b, i + 2, Some(b[i + 1]));
        }
    }
}

proof fn lemma_commands_differ()
    ensures
        "-h"@.len() == 2 && "-h"@[1] == 'h',
        "--help"@.len() == 6 && "--help"@[0] == '-',
        "help"@.len() == 4 && "help"@[0] == 'h',
        "-V"@.len() == 2 && "-V"@[1] == 'V',
        "--version"@.len() == 9,
        "version"@.len() == 7,
        "mcp"@.len() == 3 && "mcp"@[0] == 'm',
        "run"@.len() == 3 && "run"@[0] == 'r',
        "attach"@.len() == 6 && "attach"@[0] == 'a',
        "render-audio"@.len() == 12,
        "shot"@.len() == 4 && "shot"@[0] == 's',
        "play"@.len() == 4 && "play"@[0] == 'p',
{
    reveal_strlit("-h");
    reveal_strlit("--help");
    reveal_strlit("help");
    reveal_strlit("-V");
    reveal_strlit("--version");
    reveal_strlit("version");
    reveal_strlit("mcp");
    reveal_strlit("run");
    reveal_strlit("attach");
    reveal_strlit("render-audio");
    reveal_strlit("shot");
    reveal_strlit("play");
}

/// Each command goes by its name and takes what follows it. Nothing at all asks
/// for help; what is no command is refused.
#[verifier::rlimit(40)]
pub proof fn law_commands_by_name(rest: Seq<Seq<char>>, windows: bool)
    ensures
        ({
            let call = |name: Seq<char>| command_of(seq![name] + rest, windows);
            &&& command_of(Seq::empty(), windows) == Ok::<CommandModel, Seq<char>>(
                CommandModel::Help,
            )
            &&& call("-h"@) == Ok::<CommandModel, Seq<char>>(CommandModel::Help)
            &&& call("--help"@) == Ok::<CommandModel, Seq<char>>(CommandModel::Help)
            &&& call("help"@) == Ok::<CommandModel, Seq<char>>(CommandModel::Help)
            &&& call("-V"@) == Ok::<CommandModel, Seq<char>>(CommandModel::Version)
            &&& call("--version"@) == Ok::<CommandModel, Seq<char>>(CommandModel::Version)
            &&& call("version"@) == Ok::<CommandModel, Seq<char>>(CommandModel::Version)
            &&& root_from(rest, 0, None) matches Ok(root) ==> call("mcp"@) == Ok::<
                CommandModel,
                Seq<char>,
            >(CommandModel::Mcp { root })
            &&& root_from(rest, 0, None) is Err ==> call("mcp"@) is Err
            &&& run_file(rest) matches Ok(file) ==> call("run"@) == Ok::<CommandModel, Seq<char>>(
                CommandModel::Run { file },
            )
            &&& run_file(rest) is Err ==> call("run"@) is Err
            &&& one_argument(rest) matches Ok(workdir) ==> call("attach"@) == Ok::<
                CommandModel,
                Seq<char>,
            >(CommandModel::Attach { workdir })
            &&& one_argument(rest) is Err ==> call("attach"@) is Err
            &&& render_audio::args_of(rest, windows) matches Ok(args) ==> call("render-audio"@)
                == Ok::<CommandModel, Seq<char>>(CommandModel::RenderAudio { args })
            &&& render_audio::args_of(rest, windows) is Err ==> call("render-audio"@) is Err
            &&& shot::args_of(rest, windows) matches Ok(args) ==> call("shot"@) == Ok::<
                CommandModel,
                Seq<char>,
            >(CommandModel::Shot { args })
            &&& shot::args_of(rest, windows) is Err ==> call("shot"@) is Err
            &&& call("play"@) is Err
        }),
{
    lemma_commands_differ();
    assert forall|name: Seq<char>|
        #![trigger seq![name] + rest]
        (seq![name] + rest)[0] == name && (seq![name] + rest).skip(1) == rest by {
        assert((seq![name] + rest).skip(1) =~= rest);
    }
}

/// Any other name is refused, whatever follows.
pub proof fn law_an_unknown_command_is_refused(
    name: Seq<char>,
    rest: Seq<Seq<char>>,
    windows: bool,
)
    requires
        name != "-h"@ && name != "--help"@ && name != "help"@ && name != "-V"@ && name
            != "--version"@ && name != "version"@ && name != "mcp"@ && name != "run"@ && name
            != "attach"@ && name != "render-audio"@ && name != "shot"@,
    ensures
        command_of(seq![name] + rest, windows) is Err,
{
    assert((seq![name] + rest)[0] == name);
}

/// A fault is told before a halt, each with the frame it came in; a healthy frame
/// tells nothing.
pub proof fn law_a_fault_is_told_first(fault: Seq<char>, halted: bool, n: nat)
    ensures
        (SeenModel { fault: Some(fault), halted }).told(n) == Some(
            "faulted at frame "@ + decimal(n) + ": "@ + fault,
        ),
        (SeenModel { fault: None, halted: true }).told(n) == Some(
            "halted at frame "@ + decimal(n),
        ),
        (SeenModel { fault: None, halted: false }).told(n) is None,
        (SeenModel { fault: None, halted }).stops() == halted,
        (SeenModel { fault: Some(fault), halted }).stops(),
{
}

/// Each thing that is wrong is a line of its own, in their order.
pub proof fn law_each_diagnostic_is_a_line(all: Seq<Seq<char>>, one: Seq<char>)
    ensures
        listed(all.push(one)) == listed(all) + "  "@ + one + "\n"@,
        listed(Seq::empty()).len() == 0,
{
    assert(all.push(one).drop_last() =~= all);
}

/// On Windows a share is no part of the path's names.
pub proof fn law_a_share_is_no_name(server: Seq<char>, share: Seq<char>, rest: Seq<char>)
    requires
        server.len() > 0,
        share.len() > 0,
        !server.contains('/') && !server.contains('\\'),
        !share.contains('/') && !share.contains('\\'),
        !rest.contains('/') && !rest.contains('\\'),
    ensures
        path_pieces(seq!['/', '/'] + server.push('/') + share.push('/') + rest, true) == seq![
            Seq::<char>::empty(),
            rest,
        ],
{
    let none = Seq::<char>::empty();
    let path = seq!['/', '/'] + server.push('/') + share.push('/') + rest;
    let a = server.push('/') + (share.push('/') + rest);
    let b = share.push('/') + rest;
    assert forall|i: int| 0 <= i < path.len() implies path[i] != '\\' by {
        let n = server.len();
        let k = share.len();
        if 2 <= i < 2 + n {
            assert(server.contains(server[i - 2]));
        } else if 3 + n <= i < 3 + n + k {
            assert(share.contains(share[i - 3 - n]));
        } else if i >= 4 + n + k {
            assert(rest.contains(rest[i - 4 - n - k]));
        }
    }
    assert(unified(path, true) =~= path);
    assert(path =~= none.push('/') + (none.push('/') + a));
    law_a_text_is_cut_at_the_character(none, '/', none.push('/') + a);
    law_a_text_is_cut_at_the_character(none, '/', a);
    law_a_text_is_cut_at_the_character(server, '/', b);
    law_a_text_is_cut_at_the_character(share, '/', rest);
    law_a_text_without_the_character_is_whole(none, '/');
    law_a_text_without_the_character_is_whole(server, '/');
    law_a_text_without_the_character_is_whole(share, '/');
    law_a_text_without_the_character_is_whole(rest, '/');
    let all = split_on(path, '/');
    assert(all =~= seq![none, none, server, share, rest]);
    assert(all.skip(4).insert(0, none) =~= seq![none, rest]);
}

/// A dot that a path starts with is kept, since it says where from; it names no
/// file.
pub proof fn law_a_dot_first_is_kept(name: Seq<char>)
    requires
        name.len() > 0,
        !name.contains('/'),
        name != "."@,
        name != ".."@,
    ensures
        components(seq!['.'], false) == seq![seq!['.']],
        file_name(seq!['.'], false) is None,
        components(seq!['.', '/'] + name, false) == seq![seq!['.'], name],
{
    let dot = seq!['.'];
    reveal_strlit(".");
    assert("."@ =~= dot);
    assert(!dot.contains('/'));
    law_a_text_without_the_character_is_whole(dot, '/');
    let one = seq![dot];
    assert(components_in(one, 0).len() == 0);
    assert(components_in(one, 1) =~= seq![dot]);
    law_a_path_ends_with_its_file(dot, name);
    assert(dot.push('/') + name =~= seq!['.', '/'] + name);
    assert(seq![dot].push(name) =~= seq![dot, name]);
}

/// What is no command is told by its name, with the command that may have been
/// meant.
pub proof fn law_an_unknown_command_is_told(name: Seq<char>)
    ensures
        unknown_command(name) == "unknown command '"@ + name
            + "' — expected `mcp`, `run`, `attach`, or `render-audio`\n\nDid you mean: kessel run "@
            + name,
        unexpected("option"@, name) == "unexpected option '"@ + name + "'"@,
        unexpected("argument"@, name) == "unexpected argument '"@ + name + "'"@,
{
    reveal_strlit("unexpected ");
    reveal_strlit("option");
    reveal_strlit("argument");
    reveal_strlit(" '");
    reveal_strlit("unexpected option '");
    reveal_strlit("unexpected argument '");
    assert(unexpected("option"@, name) =~= "unexpected option '"@ + name + "'"@);
    assert(unexpected("argument"@, name) =~= "unexpected argument '"@ + name + "'"@);
}

} // verus!
