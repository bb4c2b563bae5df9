//! What holds of the command line and of the order of the file list.

use vstd::prelude::*;

#[allow(unused_imports)]
use crate::cli::{
    args_ask, args_from, comes_before, in_order, info_text, key_before, keys_of, listed_before, lower_case,
    matroska_extension, maybe, CommandModel, OptionsModel,
};
#[allow(unused_imports)]
use crate::mkv::file::InfoModel;
#[allow(unused_imports)]
use crate::text::{joined, lower, lower_char};

verus! {

// ---------------------------------------------------------------------------
// Options
// ---------------------------------------------------------------------------

/// Whether an argument stands for itself as a path: it does not begin with a
/// dash, or is one alone.
pub open spec fn is_path(a: Seq<char>) -> bool {
    a.len() <= 1 || a[0] != '-'
}

/// Whether an argument turns one of the options on.
pub open spec fn turns_on(a: Seq<char>) -> bool {
    ||| a == "-r"@ || a == "--recursive"@
    ||| a == "-b"@ || a == "--backup"@
    ||| a == "-l"@ || a == "--list"@
}

/// Whether the arguments are paths and options alone.
pub open spec fn ordinary(args: Seq<Seq<char>>) -> bool {
    forall|i: int| 0 <= i < args.len() ==> is_path(#[trigger] args[i]) || turns_on(args[i])
}

/// Whether an option is among the arguments, in its short or its long form.
pub open spec fn given(args: Seq<Seq<char>>, short: Seq<char>, long: Seq<char>) -> bool {
    args.contains(short) || args.contains(long)
}

/// The paths among the arguments, in order.
pub open spec fn paths_in(args: Seq<Seq<char>>) -> Seq<Seq<char>> {
    args.filter(|a: Seq<char>| is_path(a))
}

/// Whether a run has exactly the options that the arguments give, each by its
/// own short or long form.
pub open spec fn as_given(o: OptionsModel, args: Seq<Seq<char>>) -> bool {
    &&& o.recursive == given(args, "-r"@, "--recursive"@)
    &&& o.backup == given(args, "-b"@, "--backup"@)
    &&& o.list == given(args, "-l"@, "--list"@)
}

/// Whether the paths of a run are these, or the current directory where there
/// are none.
pub open spec fn runs_over(o: OptionsModel, paths: Seq<Seq<char>>) -> bool {
    if paths.len() > 0 {
        o.paths == paths
    } else {
        o.paths.len() == 1 && o.paths[0] == "."@
    }
}

/// What the options are spelled like.
proof fn lemma_spellings()
    ensures
        !is_path("-h"@) && !is_path("--help"@) && !is_path("-V"@) && !is_path("--version"@),
        !is_path("-r"@) && !is_path("--recursive"@) && !is_path("-b"@) && !is_path("--backup"@),
        !is_path("-l"@) && !is_path("--list"@) && !is_path("--"@),
        !turns_on("-h"@) && !turns_on("--help"@) && !turns_on("-V"@) && !turns_on("--version"@) && !turns_on("--"@),
        "-r"@ != "-b"@ && "-r"@ != "-l"@ && "-b"@ != "-l"@,
        "--recursive"@ != "--backup"@ && "--recursive"@ != "--list"@ && "--backup"@ != "--list"@,
        "-r"@ != "--backup"@ && "-r"@ != "--list"@ && "-b"@ != "--recursive"@,
        "-b"@ != "--list"@ && "-l"@ != "--recursive"@ && "-l"@ != "--backup"@,
        "-h"@ != "-V"@ && "-h"@ != "--version"@ && "--help"@ != "-V"@ && "--help"@ != "--version"@,
        "--"@ != "-h"@ && "--"@ != "--help"@ && "--"@ != "-V"@ && "--"@ != "--version"@,
{
    reveal_strlit("-h");
    reveal_strlit("--help");
    reveal_strlit("-V");
    reveal_strlit("--version");
    reveal_strlit("-r");
    reveal_strlit("--recursive");
    reveal_strlit("-b");
    reveal_strlit("--backup");
    reveal_strlit("-l");
    reveal_strlit("--list");
    reveal_strlit("--");
    assert("-r"@[1] == 'r' && "-b"@[1] == 'b' && "-l"@[1] == 'l' && "-h"@[1] == 'h' && "-V"@[1] == 'V');
    assert("--"@[1] == '-');
    assert("--help"@[2] == 'h' && "--list"@[2] == 'l');
    assert("--version"@.len() == 9 && "--recursive"@.len() == 11 && "--backup"@.len() == 8);
}

/// What the arguments before `n` say, where they are paths and options alone.
pub open spec fn said(front: Seq<Seq<char>>) -> OptionsModel {
    OptionsModel {
        paths: paths_in(front),
        recursive: given(front, "-r"@, "--recursive"@),
        backup: given(front, "-b"@, "--backup"@),
        list: given(front, "-l"@, "--list"@),
    }
}

/// One more argument says one thing more.
proof fn lemma_said_one_more(front: Seq<Seq<char>>, a: Seq<char>)
    ensures
        forall|x: Seq<char>| #[trigger] front.push(a).contains(x) <==> front.contains(x) || x == a,
        paths_in(front.push(a)) == if is_path(a) {
            paths_in(front).push(a)
        } else {
            paths_in(front)
        },
{
    let all = front.push(a);
    assert forall|x: Seq<char>| #[trigger] all.contains(x) <==> front.contains(x) || x == a by {
        if front.contains(x) {
            let k = choose|k: int| 0 <= k < front.len() && front[k] == x;
            assert(all[k] == x);
        }
        assert(all[front.len() as int] == a);
        if all.contains(x) && x != a {
            let k = choose|k: int| 0 <= k < all.len() && all[k] == x;
            assert(front[k] == x);
        }
    }
    reveal(Seq::filter);
    assert(all.drop_last() =~= front);
}

/// Arguments that are paths and options alone are gone through one by one.
proof fn lemma_ordinary(args: Seq<Seq<char>>, n: int)
    requires
        0 <= n <= args.len(),
        ordinary(args.take(n)),
    ensures
        args_ask(args) == args_from(args, n, said(args.take(n))),
    decreases n,
{
    lemma_spellings();
    if n == 0 {
        reveal(Seq::filter);
        assert(args.take(0) =~= Seq::<Seq<char>>::empty());
        assert(paths_in(args.take(0)) =~= Seq::<Seq<char>>::empty());
        assert(!given(args.take(0), "-r"@, "--recursive"@));
        assert(!given(args.take(0), "-b"@, "--backup"@));
        assert(!given(args.take(0), "-l"@, "--list"@));
    } else {
        let front = args.take(n - 1);
        let a = args[n - 1];
        assert(args.take(n) =~= front.push(a));
        assert forall|i: int| 0 <= i < front.len() implies is_path(#[trigger] front[i]) || turns_on(front[i]) by {
            assert(args.take(n)[i] == front[i]);
        }
        assert(args.take(n)[n - 1] == a);
        lemma_ordinary(args, n - 1);
        lemma_said_one_more(front, a);
        let before = said(front);
        let after = said(args.take(n));
        assert(args_from(args, n - 1, before) == args_from(args, n, after)) by {
            if a == "-r"@ || a == "--recursive"@ {
                assert(after =~= OptionsModel { recursive: true, ..before });
            } else if a == "-b"@ || a == "--backup"@ {
                assert(after =~= OptionsModel { backup: true, ..before });
            } else if a == "-l"@ || a == "--list"@ {
                assert(after =~= OptionsModel { list: true, ..before });
            } else {
                assert(after =~= OptionsModel { paths: before.paths.push(a), ..before });
            }
        }
    }
}

/// Each option is turned on by its own short or long form and by nothing else,
/// and what does not begin with a dash is a path, in the order given. With no
/// path the current directory is meant.
pub proof fn law_each_option_sets_itself(args: Seq<Seq<char>>)
    requires
        ordinary(args),
    ensures
        args_ask(args) matches Ok(CommandModel::Run(o)) && as_given(o, args) && runs_over(o, paths_in(args)),
{
    assert(args.take(args.len() as int) =~= args);
    lemma_ordinary(args, args.len() as int);
}

/// Behind `--` everything is a path, whatever it looks like, and no option.
pub proof fn law_behind_two_dashes_all_are_paths(front: Seq<Seq<char>>, rest: Seq<Seq<char>>)
    requires
        ordinary(front),
    ensures
        args_ask(front + seq!["--"@] + rest) matches Ok(CommandModel::Run(o)) && as_given(o, front) && runs_over(
            o,
            paths_in(front) + rest,
        ),
{
    let args = front + seq!["--"@] + rest;
    let n = front.len() as int;
    lemma_spellings();
    assert(args.take(n) =~= front);
    assert(args.skip(n + 1) =~= rest);
    assert(args[n] == "--"@);
    lemma_ordinary(args, n);
}

/// The help is shown where it is asked for, in either form, whatever stands
/// behind; and so is the version.
pub proof fn law_help_and_version_come_first(front: Seq<Seq<char>>, a: Seq<char>, rest: Seq<Seq<char>>)
    requires
        ordinary(front),
    ensures
        a == "-h"@ || a == "--help"@ ==> args_ask(front + seq![a] + rest) == Ok::<CommandModel, Seq<char>>(
            CommandModel::Help,
        ),
        a == "-V"@ || a == "--version"@ ==> args_ask(front + seq![a] + rest) == Ok::<CommandModel, Seq<char>>(
            CommandModel::Version,
        ),
{
    let args = front + seq![a] + rest;
    let n = front.len() as int;
    lemma_spellings();
    assert(args.take(n) =~= front);
    assert(args[n] == a);
    lemma_ordinary(args, n);
}

/// What begins with a dash and is no option is refused by its name.
pub proof fn law_unknown_options_are_refused(front: Seq<Seq<char>>, a: Seq<char>, rest: Seq<Seq<char>>)
    requires
        ordinary(front),
        !is_path(a),
        !turns_on(a),
        a != "-h"@ && a != "--help"@ && a != "-V"@ && a != "--version"@ && a != "--"@,
    ensures
        args_ask(front + seq![a] + rest) == Err::<CommandModel, Seq<char>>("unknown option "@ + a),
{
    let args = front + seq![a] + rest;
    let n = front.len() as int;
    assert(args.take(n) =~= front);
    assert(args[n] == a);
    lemma_ordinary(args, n);
}

// ---------------------------------------------------------------------------
// Files
// ---------------------------------------------------------------------------

/// Whether a text is a word in lower case, but for the case of its letters.
pub open spec fn spells(text: Seq<char>, word: Seq<char>) -> bool {
    &&& text.len() == word.len()
    &&& forall|i: int|
        0 <= i < word.len() ==> text[i] == #[trigger] word[i] || ('A' <= text[i] <= 'Z' && text[i] as int + 32
            == word[i] as int)
}

/// Whether a word has no capital letters.
pub open spec fn is_small(word: Seq<char>) -> bool {
    forall|i: int| 0 <= i < word.len() ==> !('A' <= #[trigger] word[i] <= 'Z')
}

/// A text in lower case is a word without capitals exactly where it spells it.
proof fn lemma_spells(text: Seq<char>, word: Seq<char>)
    requires
        is_small(word),
    ensures
        (lower(text) == word) == spells(text, word),
{
    if lower(text) == word {
        assert forall|i: int| 0 <= i < word.len() implies text[i] == #[trigger] word[i] || ('A' <= text[i] <= 'Z'
            && text[i] as int + 32 == word[i] as int) by {
            assert(lower(text)[i] == lower_char(text[i]));
        }
    }
    if spells(text, word) {
        assert forall|i: int| 0 <= i < word.len() implies lower(text)[i] == #[trigger] word[i] by {
            assert(lower(text)[i] == lower_char(text[i]));
            assert(!('A' <= word[i] <= 'Z'));
            assert(text[i] == word[i] || ('A' <= text[i] <= 'Z' && text[i] as int + 32 == word[i] as int));
            if text[i] != word[i] {
                let c = text[i];
                assert(lower_char(c) as int == word[i] as int);
            }
        }
        assert(lower(text) =~= word);
    }
}

/// A file is taken for a Matroska file by its extension alone, which is one of
/// five, in any case of its letters.
pub proof fn law_matroska_extensions(extension: Seq<char>)
    ensures
        matroska_extension(Some(extension)) == (spells(extension, "mkv"@) || spells(extension, "mka"@) || spells(
            extension,
            "mks"@,
        ) || spells(extension, "mk3d"@) || spells(extension, "webm"@)),
        !matroska_extension(None),
{
    reveal_strlit("mkv");
    reveal_strlit("mka");
    reveal_strlit("mks");
    reveal_strlit("mk3d");
    reveal_strlit("webm");
    lemma_spells(extension, "mkv"@);
    lemma_spells(extension, "mka"@);
    lemma_spells(extension, "mks"@);
    lemma_spells(extension, "mk3d"@);
    lemma_spells(extension, "webm"@);
}

/// Whether `a` is smaller than `b` where they first differ, or ends there.
pub open spec fn smaller(a: Seq<u8>, b: Seq<u8>) -> bool {
    exists|k: int|
        0 <= k <= a.len() && k < b.len() && a.take(k) == #[trigger] b.take(k) && (k == a.len() || a[k] < b[k])
}

proof fn lemma_smaller(a: Seq<u8>, b: Seq<u8>, i: int)
    requires
        0 <= i <= a.len(),
        i <= b.len(),
        a.take(i) == b.take(i),
        comes_before(a, b, i),
    ensures
        smaller(a, b),
    decreases b.len() - i,
{
    if i < a.len() && a[i] == b[i] {
        assert(a.take(i + 1) =~= a.take(i).push(a[i]));
        assert(b.take(i + 1) =~= b.take(i).push(b[i]));
        lemma_smaller(a, b, i + 1);
    } else {
        assert(a.take(i) == b.take(i));
    }
}

/// The list of files is in the order of their names in lower case, and files
/// whose names are then the same stand as they came. No file is listed twice.
pub proof fn law_files_are_listed_by_name(names: Seq<Seq<char>>, order: Seq<usize>)
    requires
        in_order(keys_of(names), order),
    ensures
        order.len() == names.len(),
        forall|p: int| 0 <= p < order.len() ==> (#[trigger] order[p]) < names.len(),
        forall|p: int, q: int| 0 <= p < q < order.len() ==> #[trigger] order[p] != #[trigger] order[q],
        forall|p: int, q: int|
            0 <= p < q < order.len() ==> {
                let a = lower_case(names[#[trigger] order[p] as int]);
                let b = lower_case(names[#[trigger] order[q] as int]);
                ||| smaller(vstd::utf8::encode_utf8(a), vstd::utf8::encode_utf8(b))
                ||| (a == b && order[p] < order[q])
            },
{
    let keys = keys_of(names);
    assert forall|p: int, q: int| 0 <= p < q < order.len() implies {
        let a = lower_case(names[#[trigger] order[p] as int]);
        let b = lower_case(names[#[trigger] order[q] as int]);
        ||| smaller(vstd::utf8::encode_utf8(a), vstd::utf8::encode_utf8(b))
        ||| (a == b && order[p] < order[q])
    } by {
        let a = lower_case(names[order[p] as int]);
        let b = lower_case(names[order[q] as int]);
        assert(keys[order[p] as int] == a);
        assert(keys[order[q] as int] == b);
        assert(listed_before(keys, order[p], order[q]));
        if key_before(a, b) {
            let x = vstd::utf8::encode_utf8(a);
            let y = vstd::utf8::encode_utf8(b);
            assert(x.take(0) =~= y.take(0));
            lemma_smaller(x, y, 0);
        }
    }
}

/// The same of an order by keys that are given.
pub proof fn law_keys_are_in_order(keys: Seq<Seq<char>>, order: Seq<usize>)
    requires
        in_order(keys, order),
    ensures
        order.len() == keys.len(),
        forall|p: int| 0 <= p < order.len() ==> (#[trigger] order[p]) < keys.len(),
        forall|p: int, q: int| 0 <= p < q < order.len() ==> #[trigger] order[p] != #[trigger] order[q],
        forall|p: int, q: int|
            0 <= p < q < order.len() ==> {
                let a = keys[#[trigger] order[p] as int];
                let b = keys[#[trigger] order[q] as int];
                ||| smaller(vstd::utf8::encode_utf8(a), vstd::utf8::encode_utf8(b))
                ||| (a == b && order[p] < order[q])
            },
{
    assert forall|p: int, q: int| 0 <= p < q < order.len() implies {
        let a = keys[#[trigger] order[p] as int];
        let b = keys[#[trigger] order[q] as int];
        ||| smaller(vstd::utf8::encode_utf8(a), vstd::utf8::encode_utf8(b))
        ||| (a == b && order[p] < order[q])
    } by {
        let a = keys[order[p] as int];
        let b = keys[order[q] as int];
        assert(listed_before(keys, order[p], order[q]));
        if key_before(a, b) {
            let x = vstd::utf8::encode_utf8(a);
            let y = vstd::utf8::encode_utf8(b);
            assert(x.take(0) =~= y.take(0));
            lemma_smaller(x, y, 0);
        }
    }
}

// ---------------------------------------------------------------------------
// The plain listing
// ---------------------------------------------------------------------------

/// Up to three texts joined.
proof fn lemma_joined_few(parts: Seq<Seq<char>>, sep: Seq<char>)
    ensures
        parts.len() == 1 ==> joined(parts, sep) == parts[0],
        parts.len() == 2 ==> joined(parts, sep) == parts[0] + sep + parts[1],
        parts.len() == 3 ==> joined(parts, sep) == parts[0] + sep + parts[1] + sep + parts[2],
{
    reveal_with_fuel(joined, 4);
}

/// A text or none as a list.
spec fn one_or_none(t: Option<Seq<char>>) -> Seq<Seq<char>> {
    match t {
        Some(t) => seq![t],
        None => Seq::empty(),
    }
}

/// A text, or the empty one.
spec fn or_empty(t: Option<Seq<char>>) -> Seq<char> {
    match t {
        Some(t) => t,
        None => Seq::empty(),
    }
}

/// Three texts of which each may be missing, joined.
proof fn lemma_joined_three(a: Option<Seq<char>>, b: Option<Seq<char>>, c: Option<Seq<char>>, sep: Seq<char>)
    ensures
        ({
            let first = if a is Some && b is Some {
                sep
            } else {
                Seq::empty()
            };
            let second = if c is Some && (a is Some || b is Some) {
                sep
            } else {
                Seq::empty()
            };
            joined(one_or_none(a) + one_or_none(b) + one_or_none(c), sep) == or_empty(a) + first + or_empty(b)
                + second + or_empty(c)
        }),
{
    let bits = one_or_none(a) + one_or_none(b) + one_or_none(c);
    lemma_joined_few(bits, sep);
    match (a, b, c) {
        (Some(x), Some(y), Some(z)) => {
            assert(bits =~= seq![x, y, z]);
        },
        (Some(x), Some(y), None) => {
            assert(bits =~= seq![x, y]);
        },
        (Some(x), None, Some(z)) => {
            assert(bits =~= seq![x, z]);
        },
        (None, Some(y), Some(z)) => {
            assert(bits =~= seq![y, z]);
        },
        (Some(x), None, None) => {
            assert(bits =~= seq![x]);
        },
        (None, Some(y), None) => {
            assert(bits =~= seq![y]);
        },
        (None, None, Some(z)) => {
            assert(bits =~= seq![z]);
        },
        (None, None, None) => {
            assert(bits =~= Seq::empty());
        },
    }
}

/// A text between two others, or none, as a list.
proof fn lemma_maybe(t: Option<Seq<char>>, front: Seq<char>, back: Seq<char>)
    ensures
        t is None ==> maybe(t, front, back) == one_or_none(None),
        t is Some ==> maybe(t, front, back) == one_or_none(Some(front + t->0 + back)),
{
}

/// The line under a file's name says its title, how long it runs and what wrote
/// it, each where it is known, in that order and with commas between, in
/// brackets. Where nothing is known there is no line.
pub proof fn law_info_line_says_what_is_known(info: InfoModel, seconds: Option<Seq<char>>)
    ensures
        info_text(info, seconds) is None <==> info.title is None && seconds is None && info.writing_app is None,
        info_text(info, seconds) matches Some(line) ==> {
            let title = match info.title {
                Some(t) => "title "@ + t,
                None => Seq::empty(),
            };
            let runs = match seconds {
                Some(s) => s + "s"@,
                None => Seq::empty(),
            };
            let wrote = match info.writing_app {
                Some(w) => w,
                None => Seq::empty(),
            };
            let first = if info.title is Some && seconds is Some {
                ", "@
            } else {
                Seq::empty()
            };
            let second = if info.writing_app is Some && (info.title is Some || seconds is Some) {
                ", "@
            } else {
                Seq::empty()
            };
            line == "  ("@ + title + first + runs + second + wrote + ")"@
        },
{
    reveal_strlit("");
    let title = match info.title {
        Some(t) => Some("title "@ + t),
        None => None,
    };
    let runs = match seconds {
        Some(s) => Some(s + "s"@),
        None => None,
    };
    assert(maybe(info.title, "title "@, ""@) == one_or_none(title)) by {
        lemma_maybe(info.title, "title "@, ""@);
        if let Some(t) = info.title {
            assert("title "@ + t + ""@ =~= "title "@ + t);
        }
    }
    assert(maybe(seconds, ""@, "s"@) == one_or_none(runs)) by {
        lemma_maybe(seconds, ""@, "s"@);
        if let Some(t) = seconds {
            assert(""@ + t + "s"@ =~= t + "s"@);
        }
    }
    assert(maybe(info.writing_app, ""@, ""@) == one_or_none(info.writing_app)) by {
        lemma_maybe(info.writing_app, ""@, ""@);
        if let Some(t) = info.writing_app {
            assert(""@ + t + ""@ =~= t);
        }
    }
    lemma_joined_three(title, runs, info.writing_app, ", "@);
    if let Some(line) = info_text(info, seconds) {
        let first = if info.title is Some && seconds is Some {
            ", "@
        } else {
            Seq::empty()
        };
        let second = if info.writing_app is Some && (info.title is Some || seconds is Some) {
            ", "@
        } else {
            Seq::empty()
        };
        assert(line =~= "  ("@ + or_empty(title) + first + or_empty(runs) + second + or_empty(info.writing_app)
            + ")"@);
    }
}

} // verus!
