//! The command line: options, which files are Matroska files, their order in
//! the list, and the plain listing.

use vstd::prelude::*;
use vstd::string::*;

use crate::mkv::file::FileInfo;
#[allow(unused_imports)]
use crate::mkv::file::InfoModel;
use crate::text::{ascii_lower, join, same_text};
#[allow(unused_imports)]
use crate::text::{joined, lower, texts};

verus! {

// ---------------------------------------------------------------------------
// Options
// ---------------------------------------------------------------------------

#[derive(Debug)]
pub struct Options {
    pub paths: Vec<String>,
    pub recursive: bool,
    pub backup: bool,
    pub list: bool,
}

/// The model of [`Options`].
#[verifier::ext_equal]
pub struct OptionsModel {
    pub paths: Seq<Seq<char>>,
    pub recursive: bool,
    pub backup: bool,
    pub list: bool,
}

impl View for Options {
    type V = OptionsModel;

    open spec fn view(&self) -> OptionsModel {
        OptionsModel {
            paths: texts(self.paths@),
            recursive: self.recursive,
            backup: self.backup,
            list: self.list,
        }
    }
}

/// What the command line asks for.
#[derive(Debug)]
pub enum Command {
    Help,
    Version,
    Run(Options),
}

/// The model of [`Command`].
pub enum CommandModel {
    Help,
    Version,
    Run(OptionsModel),
}

impl View for Command {
    type V = CommandModel;

    open spec fn view(&self) -> CommandModel {
        match *self {
            Command::Help => CommandModel::Help,
            Command::Version => CommandModel::Version,
            Command::Run(o) => CommandModel::Run(o@),
        }
    }
}

/// The options with the current directory where no path is given.
pub open spec fn with_default_path(o: OptionsModel) -> OptionsModel {
    if o.paths.len() == 0 {
        OptionsModel { paths: seq!["."@], ..o }
    } else {
        o
    }
}

/// What the arguments from `i` on ask for, given what those before them said.
/// Asking for help or the version ends there; behind `--` everything is a path.
pub open spec fn args_from(args: Seq<Seq<char>>, i: int, o: OptionsModel) -> Result<
    CommandModel,
    Seq<char>,
>
    decreases args.len() - i,
{
    if i >= args.len() {
        Ok(CommandModel::Run(with_default_path(o)))
    } else {
        let a = args[i];
        if a == "-h"@ || a == "--help"@ {
            Ok(CommandModel::Help)
        } else if a == "-V"@ || a == "--version"@ {
            Ok(CommandModel::Version)
        } else if a == "-r"@ || a == "--recursive"@ {
            args_from(args, i + 1, OptionsModel { recursive: true, ..o })
        } else if a == "-b"@ || a == "--backup"@ {
            args_from(args, i + 1, OptionsModel { backup: true, ..o })
        } else if a == "-l"@ || a == "--list"@ {
            args_from(args, i + 1, OptionsModel { list: true, ..o })
        } else if a == "--"@ {
            Ok(
                CommandModel::Run(
                    with_default_path(OptionsModel { paths: o.paths + args.skip(i + 1), ..o }),
                ),
            )
        } else if a.len() > 1 && a[0] == '-' {
            Err("unknown option "@ + a)
        } else {
            args_from(args, i + 1, OptionsModel { paths: o.paths.push(a), ..o })
        }
    }
}

/// What the arguments ask for.
pub open spec fn args_ask(args: Seq<Seq<char>>) -> Result<CommandModel, Seq<char>> {
    args_from(
        args,
        0,
        OptionsModel { paths: Seq::empty(), recursive: false, backup: false, list: false },
    )
}

/// The model of a result.
pub open spec fn command_view(r: Result<Command, String>) -> Result<CommandModel, Seq<char>> {
    match r {
        Ok(c) => Ok(c@),
        Err(e) => Err(e@),
    }
}

/// Puts the current directory where no path is given.
fn default_path(o: Options) -> (r: Options)
    ensures
        r@ == with_default_path(o@),
{
    let mut o = o;
    if o.paths.len() == 0 {
        o.paths.push(".".to_owned());
        assert(texts(o.paths@) =~= seq!["."@]);
    }
    o
}

/// Reads the arguments, without the name of the program.
pub fn parse_args(args: &Vec<String>) -> (r: Result<Command, String>)
    ensures
        command_view(r) == args_ask(texts(args@)),
{
    let ghost all = texts(args@);
    let mut o = Options { paths: Vec::new(), recursive: false, backup: false, list: false };
    assert(o@.paths =~= Seq::<Seq<char>>::empty());
    let n: usize = args.len();
    let mut i: usize = 0;
    while i < n
        invariant
            i <= n,
            n == args@.len(),
            all == texts(args@),
            args_from(all, i as int, o@) == args_ask(all),
        decreases n - i,
    {
        let a = &args[i];
        let ghost before = o@;
        assert(all[i as int] == a@);
        if same_text(a, "-h") || same_text(a, "--help") {
            return Ok(Command::Help);
        } else if same_text(a, "-V") || same_text(a, "--version") {
            return Ok(Command::Version);
        } else if same_text(a, "-r") || same_text(a, "--recursive") {
            o.recursive = true;
        } else if same_text(a, "-b") || same_text(a, "--backup") {
            o.backup = true;
        } else if same_text(a, "-l") || same_text(a, "--list") {
            o.list = true;
        } else if same_text(a, "--") {
            let mut k: usize = i + 1;
            while k < n
                invariant
                    i < k <= n,
                    n == args@.len(),
                    all == texts(args@),
                    o@.recursive == before.recursive,
                    o@.backup == before.backup,
                    o@.list == before.list,
                    o@.paths == before.paths + all.subrange(i + 1, k as int),
                decreases n - k,
            {
                let ghost had = o.paths@;
                o.paths.push(args[k].clone());
                assert(texts(o.paths@) =~= texts(had).push(args@[k as int]@));
                k += 1;
                assert(o@.paths =~= before.paths + all.subrange(i + 1, k as int));
            }
            assert(all.subrange(i + 1, n as int) =~= all.skip(i + 1));
            return Ok(Command::Run(default_path(o)));
        } else if a.as_str().unicode_len() > 1 && a.as_str().get_char(0) == '-' {
            let mut e = "unknown option ".to_owned();
            e.append(a);
            return Err(e);
        } else {
            let ghost had = o.paths@;
            o.paths.push(a.clone());
            assert(texts(o.paths@) =~= texts(had).push(a@));
        }
        i += 1;
    }
    Ok(Command::Run(default_path(o)))
}

// ---------------------------------------------------------------------------
// Files
// ---------------------------------------------------------------------------

/// Whether a file with that extension is a Matroska file. Case does not matter.
pub open spec fn matroska_extension(extension: Option<Seq<char>>) -> bool {
    match extension {
        Some(e) => {
            let l = lower(e);
            l == "mkv"@ || l == "mka"@ || l == "mks"@ || l == "mk3d"@ || l == "webm"@
        },
        None => false,
    }
}

/// Whether a file with that extension is a Matroska file.
pub fn is_matroska(extension: Option<&str>) -> (r: bool)
    ensures
        r == matroska_extension(
            match extension {
                Some(e) => Some(e@),
                None => None,
            },
        ),
{
    match extension {
        Some(e) => {
            let l = ascii_lower(e);
            same_text(&l, "mkv") || same_text(&l, "mka") || same_text(&l, "mks") || same_text(
                &l,
                "mk3d",
            ) || same_text(&l, "webm")
        },
        None => false,
    }
}

/// The text in lower case, letters of every script, as `str::to_lowercase` has
/// it.
pub uninterp spec fn lower_case(s: Seq<char>) -> Seq<char>;

/// `str::to_lowercase`. Its result is a function of the text, by the Unicode
/// tables that come with the standard library, and is only named here.
#[verifier::external_body]
fn to_lower_case(s: &str) -> (r: String)
    ensures
        r@ == lower_case(s@),
{
    s.to_lowercase()
}

/// Whether the bytes of `a` from `i` on come before those of `b`: at the first
/// difference the smaller byte decides, and what ends first comes first.
pub open spec fn comes_before(a: Seq<u8>, b: Seq<u8>, i: int) -> bool
    decreases b.len() - i,
{
    if i >= b.len() {
        false
    } else if i >= a.len() {
        true
    } else if a[i] != b[i] {
        a[i] < b[i]
    } else {
        comes_before(a, b, i + 1)
    }
}

/// Whether the text with key `a` comes before the one with key `b`, as strings
/// are ordered: by their bytes.
pub open spec fn key_before(a: Seq<char>, b: Seq<char>) -> bool {
    comes_before(vstd::utf8::encode_utf8(a), vstd::utf8::encode_utf8(b), 0)
}

/// Whether the name at `i` stands before the one at `j` in the list: by its key,
/// and among equal keys as it stood.
pub open spec fn listed_before(keys: Seq<Seq<char>>, i: usize, j: usize) -> bool {
    key_before(keys[i as int], keys[j as int]) || (keys[i as int] == keys[j as int] && i < j)
}

/// The order of the list: every name once, each before those that it stands
/// before.
pub open spec fn in_order(keys: Seq<Seq<char>>, order: Seq<usize>) -> bool {
    &&& order.len() == keys.len()
    &&& order.no_duplicates()
    &&& forall|k: int| 0 <= k < order.len() ==> (#[trigger] order[k]) < keys.len()
    &&& forall|a: int, b: int|
        0 <= a < b < order.len() ==> listed_before(keys, #[trigger] order[a], #[trigger] order[b])
}

/// The keys by which names are ordered: the names in lower case.
pub open spec fn keys_of(names: Seq<Seq<char>>) -> Seq<Seq<char>> {
    names.map_values(|n: Seq<char>| lower_case(n))
}

proof fn lemma_comes_before(a: Seq<u8>, b: Seq<u8>, i: int)
    requires
        0 <= i <= a.len(),
        0 <= i <= b.len(),
        a.take(i) == b.take(i),
    ensures
        comes_before(a, b, i) ==> !comes_before(b, a, i),
        comes_before(a, b, i) || comes_before(b, a, i) || a == b,
        a == b ==> !comes_before(a, b, i),
    decreases b.len() - i,
{
    if i < a.len() && i < b.len() && a[i] == b[i] {
        assert(a.take(i + 1) =~= a.take(i).push(a[i]));
        assert(b.take(i + 1) =~= b.take(i).push(b[i]));
        lemma_comes_before(a, b, i + 1);
    } else if i >= a.len() && i >= b.len() {
        assert(a.take(i) =~= a);
        assert(b.take(i) =~= b);
    }
}

proof fn lemma_comes_before_chain(a: Seq<u8>, b: Seq<u8>, c: Seq<u8>, i: int)
    requires
        0 <= i,
        comes_before(a, b, i),
        comes_before(b, c, i),
    ensures
        comes_before(a, c, i),
    decreases c.len() - i,
{
    if i < a.len() && a[i] == b[i] && b[i] == c[i] {
        lemma_comes_before_chain(a, b, c, i + 1);
    }
}

/// The order of keys is a strict order in which any two different keys stand.
proof fn lemma_key_before(a: Seq<char>, b: Seq<char>)
    ensures
        key_before(a, b) ==> !key_before(b, a),
        key_before(a, b) || key_before(b, a) || a == b,
        !key_before(a, a),
{
    let x = vstd::utf8::encode_utf8(a);
    let y = vstd::utf8::encode_utf8(b);
    assert(x.take(0) =~= y.take(0));
    lemma_comes_before(x, y, 0);
    lemma_comes_before(x, x, 0);
    vstd::utf8::encode_utf8_decode_utf8(a);
    vstd::utf8::encode_utf8_decode_utf8(b);
}

proof fn lemma_listed_chain(keys: Seq<Seq<char>>, i: usize, j: usize, k: usize)
    requires
        listed_before(keys, i, j),
        listed_before(keys, j, k),
    ensures
        listed_before(keys, i, k),
{
    let a = vstd::utf8::encode_utf8(keys[i as int]);
    let b = vstd::utf8::encode_utf8(keys[j as int]);
    let c = vstd::utf8::encode_utf8(keys[k as int]);
    if key_before(keys[i as int], keys[j as int]) && key_before(keys[j as int], keys[k as int]) {
        lemma_comes_before_chain(a, b, c, 0);
    }
}

/// Whether the key `a` comes before the key `b`.
fn before(a: &str, b: &str) -> (r: bool)
    ensures
        r == key_before(a@, b@),
{
    let x = a.as_bytes();
    let y = b.as_bytes();
    let n: usize = y.len();
    let mut i: usize = 0;
    while i < n
        invariant
            i <= n,
            n == y@.len(),
            x@ == vstd::utf8::encode_utf8(a@),
            y@ == vstd::utf8::encode_utf8(b@),
            comes_before(x@, y@, i as int) == comes_before(x@, y@, 0),
        decreases n - i,
    {
        if i >= x.len() {
            return true;
        }
        if x[i] != y[i] {
            return x[i] < y[i];
        }
        i += 1;
    }
    false
}

/// The order of things by their keys, and among equal keys as they came.
pub fn order_by_key(sorted_by: &Vec<String>) -> (order: Vec<usize>)
    ensures
        in_order(texts(sorted_by@), order@),
{
    let ghost keys = texts(sorted_by@);
    let n: usize = sorted_by.len();
    let mut order: Vec<usize> = Vec::new();
    let mut k: usize = 0;
    while k < n
        invariant
            k <= n,
            n == sorted_by@.len(),
            n == keys.len(),
            forall|q: int| 0 <= q < n ==> (#[trigger] sorted_by@[q])@ == keys[q],
            order@.len() == k,
            order@.no_duplicates(),
            forall|q: int| 0 <= q < order@.len() ==> (#[trigger] order@[q]) < k,
            forall|a: int, b: int|
                0 <= a < b < order@.len() ==> listed_before(
                    keys,
                    #[trigger] order@[a],
                    #[trigger] order@[b],
                ),
        decreases n - k,
    {
        let mut at: usize = 0;
        while at < order.len() && !before(&sorted_by[k], &sorted_by[order[at]])
            invariant
                at <= order@.len(),
                order@.len() == k,
                k < n,
                n == sorted_by@.len(),
                n == keys.len(),
                forall|q: int| 0 <= q < n ==> (#[trigger] sorted_by@[q])@ == keys[q],
                forall|q: int| 0 <= q < order@.len() ==> (#[trigger] order@[q]) < k,
                forall|q: int|
                    0 <= q < at ==> !key_before(keys[k as int], keys[(#[trigger] order@[q]) as int]),
            decreases order@.len() - at,
        {
            at += 1;
        }
        let ghost old_order = order@;
        order.insert(at, k);
        proof {
            lemma_inserted(keys, old_order, k, at as int);
        }
        k += 1;
    }
    order
}

/// The order in which files stand in the list: by their names in lower case,
/// and files whose names are then the same as they came.
pub fn order_by_name(names: &Vec<String>) -> (order: Vec<usize>)
    ensures
        in_order(keys_of(texts(names@)), order@),
{
    let n: usize = names.len();
    let mut lowered: Vec<String> = Vec::new();
    let mut i: usize = 0;
    while i < n
        invariant
            i <= n,
            n == names@.len(),
            lowered@.len() == i,
            forall|k: int| 0 <= k < i ==> (#[trigger] lowered@[k])@ == keys_of(texts(names@))[k],
        decreases n - i,
    {
        lowered.push(to_lower_case(&names[i]));
        i += 1;
    }
    assert(texts(lowered@) =~= keys_of(texts(names@)));
    order_by_key(&lowered)
}

/// Putting the next name behind those that it does not come before keeps the
/// order.
proof fn lemma_inserted(keys: Seq<Seq<char>>, order: Seq<usize>, k: usize, at: int)
    requires
        0 <= at <= order.len(),
        order.len() == k,
        k < keys.len(),
        order.no_duplicates(),
        forall|q: int| 0 <= q < order.len() ==> (#[trigger] order[q]) < k,
        forall|a: int, b: int|
            0 <= a < b < order.len() ==> listed_before(keys, #[trigger] order[a], #[trigger] order[b]),
        forall|q: int|
            0 <= q < at ==> !key_before(keys[k as int], keys[(#[trigger] order[q]) as int]),
        at < order.len() ==> key_before(keys[k as int], keys[order[at] as int]),
    ensures
        order.insert(at, k).no_duplicates(),
        forall|q: int| 0 <= q <= order.len() ==> (#[trigger] order.insert(at, k)[q]) <= k,
        forall|a: int, b: int|
            0 <= a < b <= order.len() ==> listed_before(
                keys,
                #[trigger] order.insert(at, k)[a],
                #[trigger] order.insert(at, k)[b],
            ),
{
    let next = order.insert(at, k);
    assert forall|a: int, b: int| 0 <= a < b <= order.len() implies listed_before(
        keys,
        #[trigger] next[a],
        #[trigger] next[b],
    ) by {
        if b < at {
            assert(next[a] == order[a] && next[b] == order[b]);
        } else if a > at {
            assert(next[a] == order[a - 1] && next[b] == order[b - 1]);
        } else if b == at {
            assert(next[a] == order[a]);
            assert(!key_before(keys[k as int], keys[order[a] as int]));
            lemma_key_before(keys[k as int], keys[order[a] as int]);
        } else if a == at {
            assert(next[b] == order[b - 1]);
            if b - 1 > at {
                assert(listed_before(keys, order[at], order[b - 1]));
                lemma_listed_chain(keys, k, order[at], order[b - 1]);
            }
        } else {
            assert(next[a] == order[a] && next[b] == order[b - 1]);
        }
    }
    assert forall|a: int, b: int| 0 <= a < next.len() && 0 <= b < next.len() && a != b implies next[a]
        != next[b] by {
        if a != at && b != at {
            let x = if a < at {
                a
            } else {
                a - 1
            };
            let y = if b < at {
                b
            } else {
                b - 1
            };
            assert(next[a] == order[x] && next[b] == order[y]);
        } else if a == at {
            let y = if b < at {
                b
            } else {
                b - 1
            };
            assert(next[b] == order[y]);
        } else {
            let x = if a < at {
                a
            } else {
                a - 1
            };
            assert(next[a] == order[x]);
        }
    }
}

// ---------------------------------------------------------------------------
// The plain listing
// ---------------------------------------------------------------------------

/// A text in a list of one, or none.
pub open spec fn maybe(text: Option<Seq<char>>, front: Seq<char>, back: Seq<char>) -> Seq<Seq<char>> {
    match text {
        Some(t) => seq![front + t + back],
        None => Seq::empty(),
    }
}

/// What the listing says of a file under its name: its title, how many seconds
/// it runs, and what wrote it.
pub open spec fn info_text(info: InfoModel, seconds: Option<Seq<char>>) -> Option<Seq<char>> {
    let bits = maybe(info.title, "title "@, ""@) + maybe(seconds, ""@, "s"@) + maybe(
        info.writing_app,
        ""@,
        ""@,
    );
    if bits.len() == 0 {
        None
    } else {
        Some("  ("@ + joined(bits, ", "@) + ")"@)
    }
}

/// Puts a text at the end of some, where there is one.
fn put_maybe(bits: &mut Vec<String>, text: &Option<String>, front: &str, back: &str)
    ensures
        texts(final(bits)@) == texts(old(bits)@) + maybe(
            crate::mkv::track::text_in(*text),
            front@,
            back@,
        ),
{
    let ghost old_bits = texts(bits@);
    if let Some(t) = text {
        let mut s = front.to_owned();
        s.append(t);
        s.append(back);
        bits.push(s);
        assert(texts(bits@) =~= old_bits.push(s@));
    }
    assert(texts(bits@) =~= old_bits + maybe(crate::mkv::track::text_in(*text), front@, back@));
}

/// What the listing says of a file under its name. The seconds that it runs are
/// given as they are to be shown.
pub fn info_line(info: &FileInfo, seconds: &Option<String>) -> (r: Option<String>)
    ensures
        match r {
            Some(s) => info_text(info@, crate::mkv::track::text_in(*seconds)) == Some(s@),
            None => info_text(info@, crate::mkv::track::text_in(*seconds)) is None,
        },
{
    let mut bits: Vec<String> = Vec::new();
    put_maybe(&mut bits, &info.title, "title ", "");
    assert(texts(bits@) =~= maybe(info@.title, "title "@, ""@));
    put_maybe(&mut bits, seconds, "", "s");
    put_maybe(&mut bits, &info.writing_app, "", "");
    if bits.len() == 0 {
        return None;
    }
    let mut out = "  (".to_owned();
    out.append(&join(&bits, ", "));
    out.append(")");
    Some(out)
}

} // verus!
