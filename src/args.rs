//! The command line: its flags, their values, and the options of a run.
use vstd::prelude::*;
use crate::extension::{normalize_extension, normalized};

verus! {

/// A flag that takes a value.
#[derive(PartialEq, Eq, Structural, Clone, Copy, Debug)]
pub enum ValueFlag {
    /// `-p` or `--path`.
    Path,
    /// `-f` or `--from`.
    From,
    /// `-t` or `--to`.
    To,
}

/// Why a command line gives no run.
#[derive(PartialEq, Eq, Structural, Clone, Copy, Debug)]
pub enum ArgError {
    /// `-h` or `--help` was given.
    Help,
    /// The flag stands last, without its value.
    MissingValue(ValueFlag),
    /// The argument at this index is no flag that is known.
    Unknown(usize),
    /// No directory was given.
    MissingPath,
    /// No source extension was given.
    MissingFrom,
    /// No target extension was given.
    MissingTo,
}

/// The options of a run.
pub struct Options {
    /// The directory to scan.
    pub path: String,
    /// The source extension, without a leading `.`.
    pub from: String,
    /// The target extension, without a leading `.`.
    pub to: String,
    pub skip_confirmation: bool,
    pub recursive: bool,
}

/// The options as plain values.
pub struct OptionsView {
    pub path: Seq<char>,
    pub from: Seq<char>,
    pub to: Seq<char>,
    pub skip_confirmation: bool,
    pub recursive: bool,
}

impl View for Options {
    type V = OptionsView;

    open spec fn view(&self) -> OptionsView {
        OptionsView {
            path: self.path@,
            from: self.from@,
            to: self.to@,
            skip_confirmation: self.skip_confirmation,
            recursive: self.recursive,
        }
    }
}

/// The options once every argument is read: the three values must all have
/// been given, the path first, then the source, then the target.
pub open spec fn finish(
    path: Option<Seq<char>>,
    from: Option<Seq<char>>,
    to: Option<Seq<char>>,
    skip: bool,
    recursive: bool,
) -> Result<OptionsView, ArgError> {
    if path is None {
        Err(ArgError::MissingPath)
    } else if from is None {
        Err(ArgError::MissingFrom)
    } else if to is None {
        Err(ArgError::MissingTo)
    } else {
        Ok(OptionsView {
            path: path->0,
            from: normalized(from->0),
            to: normalized(to->0),
            skip_confirmation: skip,
            recursive: recursive,
        })
    }
}

/// The reading of the arguments from index `i` on, with what was read
/// before. Arguments are read in order; the first that asks for help, lacks
/// its value or is unknown decides the result. A flag given twice keeps its
/// last value.
pub open spec fn parse_from(
    args: Seq<Seq<char>>,
    i: int,
    path: Option<Seq<char>>,
    from: Option<Seq<char>>,
    to: Option<Seq<char>>,
    skip: bool,
    recursive: bool,
) -> Result<OptionsView, ArgError>
    decreases args.len() - i,
{
    if i < 0 || i >= args.len() {
        finish(path, from, to, skip, recursive)
    } else {
        let a = args[i];
        if a == "-h"@ || a == "--help"@ {
            Err(ArgError::Help)
        } else if a == "-p"@ || a == "--path"@ {
            if i + 1 < args.len() {
                parse_from(args, i + 2, Some(args[i + 1]), from, to, skip, recursive)
            } else {
                Err(ArgError::MissingValue(ValueFlag::Path))
            }
        } else if a == "-f"@ || a == "--from"@ {
            if i + 1 < args.len() {
                parse_from(args, i + 2, path, Some(args[i + 1]), to, skip, recursive)
            } else {
                Err(ArgError::MissingValue(ValueFlag::From))
            }
        } else if a == "-t"@ || a == "--to"@ {
            if i + 1 < args.len() {
                parse_from(args, i + 2, path, from, Some(args[i + 1]), skip, recursive)
            } else {
                Err(ArgError::MissingValue(ValueFlag::To))
            }
        } else if a == "-y"@ {
            parse_from(args, i + 1, path, from, to, true, recursive)
        } else if a == "-r"@ || a == "--recursive"@ {
            parse_from(args, i + 1, path, from, to, skip, true)
        } else {
            Err(ArgError::Unknown(i as usize))
        }
    }
}

/// What a command line, without the program's name, gives.
pub open spec fn parse_spec(args: Seq<Seq<char>>) -> Result<OptionsView, ArgError> {
    parse_from(args, 0, None, None, None, false, false)
}

/// Whether two texts are the same.
fn same_text(a: &str, b: &str) -> (r: bool)
    ensures
        r == (a@ == b@),
{
    let n = a.unicode_len();
    if n != b.unicode_len() {
        return false;
    }
    let mut i: usize = 0;
    while i < n
        invariant
            n == a@.len(),
            n == b@.len(),
            0 <= i <= n,
            forall|j: int| 0 <= j < i ==> a@[j] == b@[j],
        decreases n - i,
    {
        if a.get_char(i) != b.get_char(i) {
            return false;
        }
        i = i + 1;
    }
    assert(a@ =~= b@);
    true
}

/// Reads the arguments that follow the program's name into the options of a
/// run, or says why they give none.
pub fn parse_args(args: &Vec<String>) -> (r: Result<Options, ArgError>)
    ensures
        match r {
            Ok(o) => parse_spec(args.deep_view()) == Ok::<OptionsView, ArgError>(o@),
            Err(e) => parse_spec(args.deep_view()) == Err::<OptionsView, ArgError>(e),
        },
{
    let ghost v = args.deep_view();
    let mut path: Option<String> = None;
    let mut from: Option<String> = None;
    let mut to: Option<String> = None;
    let mut skip: bool = false;
    let mut recursive: bool = false;
    let mut i: usize = 0;
    while i < args.len()
        invariant
            v == args.deep_view(),
            0 <= i <= args.len(),
            parse_spec(v) == parse_from(v, i as int,
                match path { Some(s) => Some(s@), None => None },
                match from { Some(s) => Some(s@), None => None },
                match to { Some(s) => Some(s@), None => None },
                skip, recursive),
        decreases args.len() - i,
    {
        let a = args[i].as_str();
        assert(v[i as int] == a@);
        if same_text(a, "-h") || same_text(a, "--help") {
            return Err(ArgError::Help);
        } else if same_text(a, "-p") || same_text(a, "--path") {
            if i + 1 < args.len() {
                assert(v[i + 1] == args[i + 1]@);
                path = Some(args[i + 1].clone());
                i = i + 2;
            } else {
                return Err(ArgError::MissingValue(ValueFlag::Path));
            }
        } else if same_text(a, "-f") || same_text(a, "--from") {
            if i + 1 < args.len() {
                assert(v[i + 1] == args[i + 1]@);
                from = Some(args[i + 1].clone());
                i = i + 2;
            } else {
                return Err(ArgError::MissingValue(ValueFlag::From));
            }
        } else if same_text(a, "-t") || same_text(a, "--to") {
            if i + 1 < args.len() {
                assert(v[i + 1] == args[i + 1]@);
                to = Some(args[i + 1].clone());
                i = i + 2;
            } else {
                return Err(ArgError::MissingValue(ValueFlag::To));
            }
        } else if same_text(a, "-y") {
            skip = true;
            i = i + 1;
        } else if same_text(a, "-r") || same_text(a, "--recursive") {
            recursive = true;
            i = i + 1;
        } else {
            return Err(ArgError::Unknown(i));
        }
    }
    match (path, from, to) {
        (None, _, _) => Err(ArgError::MissingPath),
        (_, None, _) => Err(ArgError::MissingFrom),
        (_, _, None) => Err(ArgError::MissingTo),
        (Some(p), Some(f), Some(t)) => Ok(Options {
            path: p,
            from: normalize_extension(f.as_str()),
            to: normalize_extension(t.as_str()),
            skip_confirmation: skip,
            recursive: recursive,
        }),
    }
}

} // verus!
