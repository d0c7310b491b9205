//! File name extensions: finding them, comparing them without regard to
//! ASCII case, and replacing them.
use vstd::prelude::*;

verus! {

/// The character is an ASCII capital letter.
pub open spec fn is_ascii_upper(c: char) -> bool {
    'A' <= c && c <= 'Z'
}

/// Two characters are equal up to the case of ASCII letters: the same, or
/// an ASCII capital letter and its small letter.
pub open spec fn char_eq_ci(a: char, b: char) -> bool {
    ||| a == b
    ||| is_ascii_upper(a) && b as u32 == a as u32 + 32
    ||| is_ascii_upper(b) && a as u32 == b as u32 + 32
}

/// Two strings are equal when ASCII letters are compared without case.
pub open spec fn eq_ascii_ci(a: Seq<char>, b: Seq<char>) -> bool {
    &&& a.len() == b.len()
    &&& forall|i: int| 0 <= i < a.len() ==> char_eq_ci(#[trigger] a[i], b[i])
}

/// The string holds the character `c`.
pub open spec fn has_char(s: Seq<char>, c: char) -> bool {
    exists|i: int| 0 <= i < s.len() && s[i] == c
}

/// The position of the last `.` in `s`, or -1 when there is none.
pub open spec fn last_dot(s: Seq<char>) -> int
    decreases s.len(),
{
    if s.len() == 0 {
        -1
    } else if s.last() == '.' {
        s.len() - 1
    } else {
        last_dot(s.drop_last())
    }
}

/// The extension of a file name: what follows its last `.`. A name with no
/// `.`, a name whose only `.` leads it (such as `.profile`) and the name
/// `..` have none.
pub open spec fn extension_of(name: Seq<char>) -> Option<Seq<char>> {
    let k = last_dot(name);
    if name == seq!['.', '.'] || k <= 0 {
        None
    } else {
        Some(name.subrange(k + 1, name.len() as int))
    }
}

/// The stem of a file name: what stands before its extension's `.`, or the
/// whole name where there is no extension.
pub open spec fn stem_of(name: Seq<char>) -> Seq<char> {
    match extension_of(name) {
        Some(_) => name.subrange(0, last_dot(name)),
        None => name,
    }
}

/// A file name matches an extension when it has one equal to it up to ASCII
/// case.
pub open spec fn name_matches(name: Seq<char>, ext: Seq<char>) -> bool {
    match extension_of(name) {
        Some(e) => eq_ascii_ci(e, ext),
        None => false,
    }
}

/// The name with its extension replaced by `ext`: the stem, then `.` and
/// `ext` unless `ext` is empty, in which case the name is left without one.
pub open spec fn with_extension(name: Seq<char>, ext: Seq<char>) -> Seq<char> {
    if ext.len() == 0 {
        stem_of(name)
    } else {
        stem_of(name) + seq!['.'] + ext
    }
}

/// The extension as given on a command line, with one leading `.` removed.
pub open spec fn normalized(ext: Seq<char>) -> Seq<char> {
    if ext.len() > 0 && ext[0] == '.' {
        ext.drop_first()
    } else {
        ext
    }
}

proof fn lemma_last_dot(s: Seq<char>)
    ensures
        -1 <= last_dot(s) < s.len(),
        last_dot(s) >= 0 ==> s[last_dot(s)] == '.',
        forall|j: int| last_dot(s) < j < s.len() ==> s[j] != '.',
    decreases s.len(),
{
    if s.len() > 0 && s.last() != '.' {
        lemma_last_dot(s.drop_last());
        assert(forall|j: int| 0 <= j < s.len() - 1 ==> s.drop_last()[j] == s[j]);
    }
}

/// Whether two characters are equal up to the case of ASCII letters.
pub fn char_eq_ascii_ci(a: char, b: char) -> (r: bool)
    ensures
        r == char_eq_ci(a, b),
{
    let x = a as u32;
    let y = b as u32;
    a == b || ('A' <= a && a <= 'Z' && y == x + 32) || ('A' <= b && b <= 'Z' && x == y + 32)
}

/// Whether two strings are equal up to the case of ASCII letters.
pub fn eq_ignore_ascii_case(a: &str, b: &str) -> (r: bool)
    ensures
        r == eq_ascii_ci(a@, b@),
{
    let n = a.unicode_len();
    if n != b.unicode_len() {
        return false;
    }
    let mut i: usize = 0;
    while i < n
        invariant
            n == a@.len(),
            n == b@.len(),
            0 <= i <= n,
            forall|j: int| 0 <= j < i ==> char_eq_ci(#[trigger] a@[j], b@[j]),
        decreases n - i,
    {
        if !char_eq_ascii_ci(a.get_char(i), b.get_char(i)) {
            return false;
        }
        i = i + 1;
    }
    true
}

/// The position of the last `.` in `s`, if there is one.
fn find_last_dot(s: &str) -> (r: Option<usize>)
    ensures
        match r {
            Some(k) => k as int == last_dot(s@),
            None => last_dot(s@) == -1,
        },
{
    let n = s.unicode_len();
    let mut i: usize = n;
    assert(s@.subrange(0, n as int) =~= s@);
    while i > 0
        invariant
            n == s@.len(),
            i <= n,
            last_dot(s@) == last_dot(s@.subrange(0, i as int)),
        decreases i,
    {
        let ghost t = s@.subrange(0, i as int);
        assert(t.drop_last() =~= s@.subrange(0, i - 1));
        if s.get_char(i - 1) == '.' {
            return Some(i - 1);
        }
        i = i - 1;
    }
    None
}

/// Whether `s` is the name `..`.
fn is_parent_name(s: &str) -> (r: bool)
    ensures
        r == (s@ == seq!['.', '.']),
{
    if s.unicode_len() != 2 {
        return false;
    }
    let a = s.get_char(0);
    let b = s.get_char(1);
    if a == '.' && b == '.' {
        assert(s@ =~= seq!['.', '.']);
        true
    } else {
        false
    }
}

/// The position of the `.` that opens the name's extension, if it has one.
fn extension_dot(name: &str) -> (r: Option<usize>)
    ensures
        match r {
            Some(k) => extension_of(name@) is Some && k as int == last_dot(name@),
            None => extension_of(name@) is None,
        },
{
    if is_parent_name(name) {
        return None;
    }
    match find_last_dot(name) {
        Some(k) => if k == 0 { None } else { Some(k) },
        None => None,
    }
}

/// The extension of a file name, if it has one.
pub fn extension(name: &str) -> (r: Option<&str>)
    ensures
        match r {
            Some(e) => extension_of(name@) == Some(e@),
            None => extension_of(name@) is None,
        },
{
    proof { lemma_last_dot(name@); }
    let n = name.unicode_len();
    match extension_dot(name) {
        Some(k) => Some(name.substring_char(k + 1, n)),
        None => None,
    }
}

/// Whether a file name has an extension equal to `ext` up to ASCII case.
/// A name without an extension never matches.
pub fn matches(name: &str, ext: &str) -> (r: bool)
    ensures
        r == name_matches(name@, ext@),
{
    match extension(name) {
        Some(e) => eq_ignore_ascii_case(e, ext),
        None => false,
    }
}

/// The name with its extension replaced by `ext`; where `ext` is empty the
/// name loses its extension.
pub fn renamed(name: &str, ext: &str) -> (r: String)
    ensures
        r@ == with_extension(name@, ext@),
{
    proof { lemma_last_dot(name@); }
    let stem: &str = match extension_dot(name) {
        Some(k) => name.substring_char(0, k),
        None => name,
    };
    let mut r = String::from_str(stem);
    if ext.unicode_len() > 0 {
        proof { reveal_strlit("."); }
        r.append(".");
        r.append(ext);
    }
    r
}

/// An extension as given by a user, with one leading `.` removed if there
/// is one.
pub fn normalize_extension(ext: &str) -> (r: String)
    ensures
        r@ == normalized(ext@),
{
    let n = ext.unicode_len();
    if n > 0 && ext.get_char(0) == '.' {
        String::from_str(ext.substring_char(1, n))
    } else {
        String::from_str(ext)
    }
}

proof fn lemma_last_dot_at(s: Seq<char>, k: int)
    requires
        0 <= k < s.len(),
        s[k] == '.',
        forall|j: int| k < j < s.len() ==> s[j] != '.',
    ensures
        last_dot(s) == k,
{
    lemma_last_dot(s);
}

/// An extension that matches a name's extension holds no `.`, as the
/// extension does not.
proof fn lemma_matching_has_no_dot(name: Seq<char>, ext: Seq<char>)
    requires
        name_matches(name, ext),
    ensures
        !has_char(ext, '.'),
{
    lemma_last_dot(name);
    let k = last_dot(name);
    let e = name.subrange(k + 1, name.len() as int);
    if has_char(ext, '.') {
        let i = choose|i: int| 0 <= i < ext.len() && ext[i] == '.';
        assert(char_eq_ci(e[i], ext[i]));
        assert(name[k + 1 + i] == e[i]);
        assert(e[i] == '.');
    }
}

/// Giving a name that has an extension a new extension without a `.` in it
/// keeps the stem, and the new name has exactly that extension.
proof fn lemma_with_extension_parts(name: Seq<char>, ext: Seq<char>)
    requires
        extension_of(name) is Some,
        ext.len() > 0,
        !has_char(ext, '.'),
    ensures
        extension_of(with_extension(name, ext)) == Some(ext),
        stem_of(with_extension(name, ext)) == stem_of(name),
{
    lemma_last_dot(name);
    let k = last_dot(name);
    let stem = name.subrange(0, k);
    let w = with_extension(name, ext);
    assert(w == stem + seq!['.'] + ext);
    assert(w[k] == '.');
    assert forall|j: int| k < j < w.len() implies w[j] != '.' by {
        assert(w[j] == ext[j - k - 1]);
    }
    lemma_last_dot_at(w, k);
    assert(w.len() >= 3);
    assert(w != seq!['.', '.']);
    assert(w.subrange(k + 1, w.len() as int) =~= ext);
    assert(w.subrange(0, k) =~= stem);
}

/// Renaming a name to the extension it already has, letter for letter,
/// gives the name back.
pub proof fn lemma_same_extension_keeps_name(name: Seq<char>, ext: Seq<char>)
    requires
        extension_of(name) == Some(ext),
        ext.len() > 0,
    ensures
        with_extension(name, ext) == name,
{
    lemma_last_dot(name);
    let k = last_dot(name);
    assert(name =~= name.subrange(0, k) + seq!['.'] + ext);
}

/// Renaming with the same extension as source and target is idempotent: the
/// new name still matches, and renaming it again leaves it as it is.
pub proof fn lemma_rename_idempotent(name: Seq<char>, ext: Seq<char>)
    requires
        name_matches(name, ext),
        ext.len() > 0,
    ensures
        name_matches(with_extension(name, ext), ext),
        with_extension(with_extension(name, ext), ext) == with_extension(name, ext),
{
    lemma_matching_has_no_dot(name, ext);
    lemma_with_extension_parts(name, ext);
    lemma_same_extension_keeps_name(with_extension(name, ext), ext);
}

/// Renaming from `a` to `b` and then from `b` back to `a` restores the name,
/// where the name's extension is `a` letter for letter and `b` is a
/// non-empty extension without a `.`.
pub proof fn lemma_round_trip(name: Seq<char>, a: Seq<char>, b: Seq<char>)
    requires
        extension_of(name) == Some(a),
        a.len() > 0,
        b.len() > 0,
        !has_char(b, '.'),
    ensures
        name_matches(name, a),
        name_matches(with_extension(name, b), b),
        with_extension(with_extension(name, b), a) == name,
{
    lemma_with_extension_parts(name, b);
    let w = with_extension(name, b);
    lemma_last_dot(name);
    lemma_last_dot(w);
    assert(name == stem_of(name) + seq!['.'] + a) by {
        assert(name =~= name.subrange(0, last_dot(name)) + seq!['.'] + a);
    }
}

/// A name without a `.` has no extension, so it matches no extension.
pub proof fn lemma_no_dot_never_matches(name: Seq<char>, ext: Seq<char>)
    requires
        !has_char(name, '.'),
    ensures
        extension_of(name) is None,
        !name_matches(name, ext),
{
    lemma_last_dot(name);
}

} // verus!
