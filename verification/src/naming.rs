//! Where an incoming file goes: below the download folder, never over another
//! file, and on from where an earlier transfer of it broke off.

use crate::shell::Platform;
use crate::text::{
    a_number_is_read_back, chars_of, decimal, is_white_space, number_of, only_piece,
    pieces, pieces_hold_no_separator, push_decimal, rows_view, split_at_char, string_of,
    texts_view, the_last_piece_stands_last, trim, trim_end, trim_start, trimmed,
    trimming_takes_white_space_alone, white_space_around_makes_no_difference, with_between,
};
use vstd::prelude::*;
use vstd::string::StringExecFns;

verus! {

/// A part of a path that leads nowhere, or up, and is left out.
pub open spec fn is_ignored(part: Seq<char>) -> bool {
    part.len() == 0 || part == ".."@ || part == "."@
}

/// Whether `part` begins with a drive, such as `C:`, and so leads to the top of it.
pub open spec fn has_drive(part: Seq<char>) -> bool {
    part.len() >= 2 && part[1] == ':' && ('a' <= part[0] <= 'z' || 'A' <= part[0] <= 'Z')
}

/// What stands behind the drives that `part` begins with.
pub open spec fn behind_drives(part: Seq<char>) -> Seq<char>
    decreases part.len(),
    via trimming_shortens
{
    if has_drive(part) {
        behind_drives(trim(part.skip(2)))
    } else {
        part
    }
}

#[via_fn]
proof fn trimming_shortens(part: Seq<char>) {
    if has_drive(part) {
        trimmed_len(part.skip(2));
    }
}

/// A trimmed text is no longer than it was.
proof fn trimmed_len(s: Seq<char>)
    ensures
        trim(s).len() <= s.len(),
{
    trim_start_len(s);
    trim_end_len(trim_start(s));
}

proof fn trim_start_len(s: Seq<char>)
    ensures
        trim_start(s).len() <= s.len(),
    decreases s.len(),
{
    if s.len() > 0 {
        trim_start_len(s.drop_first());
    }
}

proof fn trim_end_len(s: Seq<char>)
    ensures
        trim_end(s).len() <= s.len(),
    decreases s.len(),
{
    if s.len() > 0 {
        trim_end_len(s.drop_last());
    }
}

/// What is left of `row` as a part of a path: it is trimmed, and on Windows, where a drive
/// would lead out of the folder, what stands behind the drive is left.
pub open spec fn part_of(platform: Platform, row: Seq<char>) -> Seq<char> {
    if platform == Platform::Windows {
        behind_drives(trim(row))
    } else {
        trim(row)
    }
}

/// The parts that `rows` leave, except those that are ignored.
pub open spec fn kept_parts(platform: Platform, rows: Seq<Seq<char>>) -> Seq<Seq<char>>
    decreases rows.len(),
{
    if rows.len() == 0 {
        Seq::empty()
    } else {
        let before = kept_parts(platform, rows.drop_last());
        let part = part_of(platform, rows.last());
        if is_ignored(part) {
            before
        } else {
            before.push(part)
        }
    }
}

/// `rel_path` with the slashes that part it: on Windows both kinds do.
pub open spec fn slashed(platform: Platform, rel_path: Seq<char>) -> Seq<char> {
    if platform == Platform::Windows {
        with_slashes(rel_path)
    } else {
        rel_path
    }
}

/// The way from the download folder to the file that the sender calls `rel_path`.
pub open spec fn parts_of(platform: Platform, rel_path: Seq<char>) -> Seq<Seq<char>> {
    kept_parts(platform, pieces(slashed(platform, rel_path), '/'))
}

/// What stands behind the drives that `part` begins with.
fn past_drives(part: &[char]) -> (rest: &[char])
    ensures
        rest@ == behind_drives(part@),
    decreases part@.len(),
{
    if part.len() >= 2 && part[1] == ':' && (('a' <= part[0] && part[0] <= 'z') || ('A' <= part[0]
        && part[0] <= 'Z')) {
        let n: usize = part.len();
        let rest = vstd::slice::slice_subrange(part, 2, n);
        proof {
            assert(rest@ == part@.skip(2));
            trimmed_len(rest@);
        }
        past_drives(trimmed(rest))
    } else {
        part
    }
}

/// Whether a part of a path is left out.
fn ignored(part: &[char]) -> (b: bool)
    ensures
        b == is_ignored(part@),
{
    proof {
        reveal_strlit(".");
        reveal_strlit("..");
        if part@.len() == 1 && part@[0] == '.' {
            assert(part@ == "."@);
        }
        if part@.len() == 2 && part@[0] == '.' && part@[1] == '.' {
            assert(part@ == ".."@);
        }
    }
    part.len() == 0 || (part.len() == 1 && part[0] == '.') || (part.len() == 2 && part[0] == '.'
        && part[1] == '.')
}

/// The way from the download folder to the file that the sender calls `rel_path`.
pub fn safe_parts(platform: Platform, rel_path: &str) -> (parts: Vec<String>)
    ensures
        texts_view(parts@) == parts_of(platform, rel_path@),
{
    let windows: bool = platform == Platform::Windows;
    let chars = if windows {
        let text = wire_path(rel_path);
        chars_of(text.as_str())
    } else {
        chars_of(rel_path)
    };
    let rows = split_at_char(chars.as_slice(), '/');
    let ghost all = pieces(slashed(platform, rel_path@), '/');
    let mut parts: Vec<String> = Vec::new();
    let mut i: usize = 0;
    proof {
        assert(texts_view(parts@) == kept_parts(platform, all.take(0)));
    }
    while i < rows.len()
        invariant
            i <= rows@.len(),
            windows == (platform == Platform::Windows),
            rows_view(rows@) == all,
            texts_view(parts@) == kept_parts(platform, all.take(i as int)),
        decreases rows@.len() - i,
    {
        let row = trimmed(rows[i].as_slice());
        let part = if windows {
            past_drives(row)
        } else {
            row
        };
        proof {
            assert(all.take(i + 1).drop_last() == all.take(i as int));
            assert(rows_view(rows@)[i as int] == rows@[i as int]@);
            assert(all.take(i + 1).last() == rows@[i as int]@);
        }
        if !ignored(part) {
            let text = string_of(part);
            let ghost before = parts@;
            parts.push(text);
            proof {
                assert(texts_view(parts@) == texts_view(before).push(part@));
            }
        }
        i += 1;
    }
    proof {
        assert(all.take(i as int) == all);
    }
    parts
}

/// What is left of a text when it is trimmed stood in it before.
proof fn trim_adds_nothing(s: Seq<char>, c: char)
    ensures
        trim_start(s).contains(c) ==> s.contains(c),
        trim_end(s).contains(c) ==> s.contains(c),
    decreases s.len(),
{
    if s.len() > 0 {
        trim_adds_nothing(s.drop_first(), c);
        trim_adds_nothing(s.drop_last(), c);
        if s.drop_first().contains(c) {
            let k = choose|k: int| 0 <= k < s.drop_first().len() && s.drop_first()[k] == c;
            assert(s[k + 1] == c);
        }
        if s.drop_last().contains(c) {
            let k = choose|k: int| 0 <= k < s.drop_last().len() && s.drop_last()[k] == c;
            assert(s[k] == c);
        }
    }
}

/// What stands behind drives has none in front and holds nothing new.
proof fn behind_drives_is_plain(part: Seq<char>, c: char)
    ensures
        !has_drive(behind_drives(part)),
        behind_drives(part).contains(c) ==> part.contains(c),
    decreases part.len(),
{
    if has_drive(part) {
        let rest = part.skip(2);
        trimmed_len(rest);
        behind_drives_is_plain(trim(rest), c);
        trim_adds_nothing(rest, c);
        trim_adds_nothing(trim_start(rest), c);
        if rest.contains(c) {
            let k = choose|k: int| 0 <= k < rest.len() && rest[k] == c;
            assert(part[k + 2] == c);
        }
    }
}

/// Where the rows do not hold `c`, neither do the parts that are kept.
proof fn kept_parts_are_plain(platform: Platform, rows: Seq<Seq<char>>, c: char)
    requires
        forall|k: int| 0 <= k < rows.len() ==> !(#[trigger] rows[k]).contains(c),
    ensures
        forall|k: int|
            0 <= k < kept_parts(platform, rows).len() ==> {
                let part = #[trigger] kept_parts(platform, rows)[k];
                &&& !is_ignored(part)
                &&& platform == Platform::Windows ==> !has_drive(part)
                &&& !part.contains(c)
            },
    decreases rows.len(),
{
    if rows.len() > 0 {
        let init = rows.drop_last();
        assert forall|k: int| 0 <= k < init.len() implies !(#[trigger] init[k]).contains(c) by {
            assert(init[k] == rows[k]);
        }
        kept_parts_are_plain(platform, init, c);
        let row = rows[rows.len() - 1];
        trim_adds_nothing(row, c);
        trim_adds_nothing(trim_start(row), c);
        behind_drives_is_plain(trim(row), c);
        let all = kept_parts(platform, rows);
        let before = kept_parts(platform, init);
        assert forall|k: int| 0 <= k < all.len() implies {
            let part = #[trigger] all[k];
            &&& !is_ignored(part)
            &&& platform == Platform::Windows ==> !has_drive(part)
            &&& !part.contains(c)
        } by {
            if k < before.len() {
                assert(all[k] == before[k]);
            }
        }
    }
}

/// The pieces of a text hold nothing that the text does not hold.
proof fn pieces_add_nothing(s: Seq<char>, sep: char, c: char)
    requires
        !s.contains(c),
    ensures
        pieces(s, sep).len() > 0,
        forall|k: int| 0 <= k < pieces(s, sep).len() ==> !(#[trigger] pieces(s, sep)[k]).contains(c),
    decreases s.len(),
{
    if s.len() > 0 {
        let init = s.drop_last();
        assert forall|k: int| 0 <= k < init.len() implies init[k] != c by {
            assert(s[k] != c);
        }
        assert(s[s.len() - 1] != c);
        pieces_add_nothing(init, sep, c);
        let before = pieces(init, sep);
        let all = pieces(s, sep);
        assert forall|k: int| 0 <= k < all.len() implies !(#[trigger] all[k]).contains(c) by {
            if k < before.len() - 1 || (s.last() == sep && k < before.len()) {
                assert(all[k] == before[k]);
            } else if s.last() != sep {
                let piece = before.last();
                assert(piece == before[before.len() - 1]);
                assert(all[k] == piece.push(s.last()));
                assert forall|j: int| 0 <= j < all[k].len() implies all[k][j] != c by {
                    if j < piece.len() {
                        assert(piece[j] != c);
                    }
                }
            }
        }
    }
}

/// Whatever the sender calls a file, no part of the way to it is empty, leads up or
/// stays in place, and none holds a slash; on Windows none holds a slash of the other
/// kind or begins with a drive either. So the way leads down from the download folder.
pub proof fn the_way_leads_down(platform: Platform, rel_path: Seq<char>)
    ensures
        forall|k: int|
            0 <= k < parts_of(platform, rel_path).len() ==> {
                let part = #[trigger] parts_of(platform, rel_path)[k];
                &&& part.len() > 0
                &&& part != "."@
                &&& part != ".."@
                &&& !part.contains('/')
                &&& platform == Platform::Windows ==> !part.contains('\\') && !has_drive(part)
            },
{
    let text = slashed(platform, rel_path);
    pieces_hold_no_separator(text, '/');
    kept_parts_are_plain(platform, pieces(text, '/'), '/');
    if platform == Platform::Windows {
        assert(!text.contains('\\'));
        pieces_add_nothing(text, '/', '\\');
        kept_parts_are_plain(platform, pieces(text, '/'), '\\');
    }
}

/// Where drives mean nothing, a name without a slash is the way to the file of that very
/// name: no two such names, white space around them left aside, lead to one file.
pub proof fn a_plain_name_is_its_own_way(platform: Platform, name: Seq<char>)
    requires
        platform != Platform::Windows,
        !name.contains('/'),
        !is_ignored(trim(name)),
    ensures
        parts_of(platform, name) == seq![trim(name)],
{
    only_piece(name, '/');
    assert(seq![name].drop_last() == Seq::<Seq<char>>::empty());
    assert(kept_parts(platform, seq![name].drop_last()) == Seq::<Seq<char>>::empty());
    assert(seq![name].last() == name);
    assert(parts_of(platform, name) == seq![trim(name)]);
}

/// A path as it is named to the other side: with `/` between its parts.
pub open spec fn with_slashes(path: Seq<char>) -> Seq<char> {
    path.map_values(
        |c: char|
            if c == '\\' {
                '/'
            } else {
                c
            },
    )
}

/// A path as it is named to the other side: with `/` between its parts.
pub fn wire_path(path: &str) -> (text: String)
    ensures
        text@ == with_slashes(path@),
{
    let mut text = String::new();
    for c in it: path.chars()
        invariant
            it.seq() == path@,
            text@ == with_slashes(path@.take(it.index())),
    {
        proof {
            assert(with_slashes(path@.take(it.index() + 1)) == with_slashes(
                path@.take(it.index()),
            ).push(if c == '\\' {
                '/'
            } else {
                c
            }));
        }
        if c == '\\' {
            text.push('/');
        } else {
            text.push(c);
        }
    }
    proof {
        assert(path@.take(path@.len() as int) == path@);
    }
    text
}

/// What the file `rest` below the folder `folder` is called to the other side.
pub open spec fn below(folder: Seq<char>, rest: Seq<char>) -> Seq<char> {
    if folder.len() == 0 {
        with_slashes(rest)
    } else {
        with_slashes(folder) + seq!['/'] + with_slashes(rest)
    }
}

/// What the file `rest` below the folder `folder` is called to the other side.
pub fn name_below(folder: &str, rest: &str) -> (name: String)
    ensures
        name@ == below(folder@, rest@),
{
    let mut name = wire_path(folder);
    if name.unicode_len() > 0 {
        name.push('/');
    }
    let tail = wire_path(rest);
    name.append(tail.as_str());
    proof {
        assert(name@ == below(folder@, rest@));
    }
    name
}

/// Where the last dot of `name` stands, or -1.
pub open spec fn last_dot(name: Seq<char>) -> int
    decreases name.len(),
{
    if name.len() == 0 {
        -1
    } else if name.last() == '.' {
        name.len() - 1
    } else {
        last_dot(name.drop_last())
    }
}

/// Whether `name` has an extension: a dot that is not its first character.
pub open spec fn has_extension(name: Seq<char>) -> bool {
    last_dot(name) > 0 && name != ".."@
}

/// `name` without its extension.
pub open spec fn stem_of(name: Seq<char>) -> Seq<char> {
    if has_extension(name) {
        name.take(last_dot(name))
    } else {
        name
    }
}

/// The extension of `name` with its dot, or nothing.
pub open spec fn suffix_of(name: Seq<char>) -> Seq<char> {
    if has_extension(name) {
        name.skip(last_dot(name))
    } else {
        Seq::empty()
    }
}

/// The name that is tried after `n` others have been found taken: first `name`
/// itself, then `stem (1).ext`, `stem (2).ext` and so on.
pub open spec fn nth_name(name: Seq<char>, n: nat) -> Seq<char> {
    if n == 0 {
        name
    } else {
        stem_of(name) + " ("@ + decimal(n) + ")"@ + suffix_of(name)
    }
}

/// Where the stem of `name` ends.
fn stem_len(name: &[char]) -> (n: usize)
    ensures
        n <= name@.len(),
        name@.take(n as int) == stem_of(name@),
        name@.skip(n as int) == suffix_of(name@),
{
    let mut n: usize = name.len();
    proof {
        assert(name@.take(n as int) == name@);
    }
    while n > 0 && name[n - 1] != '.'
        invariant
            n <= name@.len(),
            last_dot(name@.take(n as int)) == last_dot(name@),
        decreases n,
    {
        proof {
            assert(name@.take(n as int).drop_last() == name@.take(n - 1));
        }
        n -= 1;
    }
    proof {
        reveal_strlit("..");
        assert(last_dot(name@) == n - 1);
        assert(name@.take(name@.len() as int) == name@);
        assert(name@.skip(name@.len() as int) == Seq::<char>::empty());
        if name@.len() == 2 && name@[0] == '.' && name@[1] == '.' {
            assert(name@ == ".."@);
        }
    }
    let dots: bool = name.len() == 2 && name[0] == '.' && name[1] == '.';
    if n > 1 && !dots {
        n - 1
    } else {
        name.len()
    }
}

/// The name that is tried after `n` others have been found taken.
pub fn candidate(name: &str, n: u32) -> (text: String)
    ensures
        text@ == nth_name(name@, n as nat),
{
    let chars = chars_of(name);
    if n == 0 {
        return string_of(chars.as_slice());
    }
    let k: usize = stem_len(chars.as_slice());
    let stem = vstd::slice::slice_subrange(chars.as_slice(), 0, k);
    let suffix = vstd::slice::slice_subrange(chars.as_slice(), k, chars.len());
    let mut text = string_of(stem);
    text.append(" (");
    push_decimal(&mut text, n as u64);
    text.append(")");
    let tail = string_of(suffix);
    text.append(tail.as_str());
    proof {
        assert(stem@ == name@.take(k as int));
        assert(suffix@ == name@.skip(k as int));
    }
    text
}

/// What is done with a file for which its name is or is not taken.
#[derive(Clone, Copy, Debug, PartialEq, Eq, Structural)]
pub enum Resume {
    /// The name is free: the file is written from its beginning.
    Fresh,
    /// So many bytes are there already: the file is written on from there.
    Continue(u64),
    /// Another file has the name: a new name is looked for.
    Rename,
}

/// What is done with a file of `incoming_size` bytes where a file of
/// `existing` bytes, or none, has its name.
pub open spec fn resume(existing: Option<u64>, incoming_size: u64) -> Resume {
    match existing {
        None => Resume::Fresh,
        Some(len) => if len < incoming_size {
            Resume::Continue(len)
        } else {
            Resume::Rename
        },
    }
}

/// What is done with a file of `incoming_size` bytes where a file of
/// `existing` bytes, or none, has its name.
pub fn decide_resume(existing: Option<u64>, incoming_size: u64) -> (decision: Resume)
    ensures
        decision == resume(existing, incoming_size),
{
    match existing {
        None => Resume::Fresh,
        Some(len) => if len < incoming_size {
            Resume::Continue(len)
        } else {
            Resume::Rename
        },
    }
}

/// The number of the last name that is tried.
pub const LAST_CANDIDATE: u32 = 9_999;

/// How far the search for the place of a file has come.
#[derive(Clone, Copy, Debug, PartialEq, Eq, Structural)]
pub enum PlaceAt {
    /// It is not known yet whether the name is taken.
    First,
    /// So many names have been found taken by other files.
    Search(u32),
    /// The place is found: the name of this number, from this byte on.
    Settled(u32, u64),
    /// There is no place: other files have every name that can be tried.
    Full,
}

/// The search for the place of a file.
pub struct Placement {
    pub name: Seq<char>,
    pub size: u64,
    pub at: PlaceAt,
}

impl Placement {
    /// The name that the search is at.
    pub open spec fn current(self) -> Seq<char> {
        match self.at {
            PlaceAt::First => self.name,
            PlaceAt::Search(n) => nth_name(self.name, n as nat),
            PlaceAt::Settled(n, _) => nth_name(self.name, n as nat),
            PlaceAt::Full => self.name,
        }
    }

    /// Whether the search is over, with a place or without one.
    pub open spec fn is_over(self) -> bool {
        self.at is Settled || self.at is Full
    }

    /// The search once it is known how long the file of the current name is, if
    /// there is one.
    pub open spec fn after(self, existing: Option<u64>) -> Placement {
        let at = match self.at {
            PlaceAt::First => match resume(existing, self.size) {
                Resume::Fresh => PlaceAt::Settled(0, 0),
                Resume::Continue(len) => PlaceAt::Settled(0, len),
                Resume::Rename => PlaceAt::Search(0),
            },
            PlaceAt::Search(n) => if existing is None {
                PlaceAt::Settled(n, 0)
            } else if n < LAST_CANDIDATE {
                PlaceAt::Search((n + 1) as u32)
            } else {
                PlaceAt::Full
            },
            PlaceAt::Settled(n, offset) => PlaceAt::Settled(n, offset),
            PlaceAt::Full => PlaceAt::Full,
        };
        Placement { at, ..self }
    }
}

/// The search for the place of a file.
pub struct Placing {
    name: String,
    size: u64,
    at: PlaceAt,
}

impl View for Placing {
    type V = Placement;

    closed spec fn view(&self) -> Placement {
        Placement { name: self.name@, size: self.size, at: self.at }
    }
}

impl Placing {
    /// The place of a file of `size` bytes that would be called `name`.
    pub fn new(name: String, size: u64) -> (p: Placing)
        ensures
            p@ == (Placement { name: name@, size, at: PlaceAt::First }),
    {
        Placing { name, size, at: PlaceAt::First }
    }

    /// How long the file is.
    pub fn size(&self) -> (size: u64)
        ensures
            size == self@.size,
    {
        self.size
    }

    /// The name that the search is at: how long the file of this name is decides
    /// how it goes on, or once the place is found, the file goes there. Where there
    /// is no place it is the name that the file would have had.
    pub fn current(&self) -> (name: String)
        ensures
            name@ == self@.current(),
    {
        match self.at {
            PlaceAt::First => self.name.clone(),
            PlaceAt::Search(n) => candidate(self.name.as_str(), n),
            PlaceAt::Settled(n, _) => candidate(self.name.as_str(), n),
            PlaceAt::Full => self.name.clone(),
        }
    }

    /// Whether there is no place for the file.
    pub fn is_full(&self) -> (b: bool)
        ensures
            b == (self@.at is Full),
    {
        match self.at {
            PlaceAt::Full => true,
            _ => false,
        }
    }

    /// The byte from which on the file is written, once its place is found.
    pub fn settled(&self) -> (offset: Option<u64>)
        ensures
            offset == (match self@.at {
                PlaceAt::Settled(_, offset) => Some(offset),
                _ => None,
            }),
    {
        match self.at {
            PlaceAt::Settled(_, offset) => Some(offset),
            _ => None,
        }
    }

    /// The search once it is known how long the file of the current name is, if
    /// there is one.
    pub fn answer(self, existing: Option<u64>) -> (p: Placing)
        ensures
            p@ == self@.after(existing),
    {
        let at = match self.at {
            PlaceAt::First => match decide_resume(existing, self.size) {
                Resume::Fresh => PlaceAt::Settled(0, 0),
                Resume::Continue(len) => PlaceAt::Settled(0, len),
                Resume::Rename => PlaceAt::Search(0),
            },
            PlaceAt::Search(n) => if existing.is_none() {
                PlaceAt::Settled(n, 0)
            } else if n < LAST_CANDIDATE {
                PlaceAt::Search(n + 1)
            } else {
                PlaceAt::Full
            },
            PlaceAt::Settled(n, offset) => PlaceAt::Settled(n, offset),
            PlaceAt::Full => PlaceAt::Full,
        };
        Placing { name: self.name, size: self.size, at }
    }
}

/// How long the file `name` of `folder` is, if there is one.
pub open spec fn existing(folder: Map<Seq<char>, u64>, name: Seq<char>) -> Option<u64> {
    if folder.contains_key(name) {
        Some(folder[name])
    } else {
        None
    }
}

/// How many questions a search has at most still to ask.
pub open spec fn questions(p: Placement) -> nat {
    match p.at {
        PlaceAt::First => LAST_CANDIDATE as nat + 2,
        PlaceAt::Search(n) => if n <= LAST_CANDIDATE {
            (LAST_CANDIDATE - n + 1) as nat
        } else {
            1
        },
        PlaceAt::Settled(_, _) => 0,
        PlaceAt::Full => 0,
    }
}

/// Where the search ends when it is answered from `folder`, which maps the names
/// of files to their lengths.
pub open spec fn placed(folder: Map<Seq<char>, u64>, p: Placement) -> Placement
    decreases questions(p),
{
    if p.is_over() {
        p
    } else {
        placed(folder, p.after(existing(folder, p.current())))
    }
}

/// Whether some name that can be tried is free.
pub open spec fn some_name_is_free(folder: Map<Seq<char>, u64>, name: Seq<char>) -> bool {
    exists|n: nat| n <= LAST_CANDIDATE && !folder.contains_key(#[trigger] nth_name(name, n))
}

/// Name number `n` is the first that is free.
pub open spec fn is_first_free(folder: Map<Seq<char>, u64>, name: Seq<char>, n: nat) -> bool {
    &&& n <= LAST_CANDIDATE
    &&& !folder.contains_key(nth_name(name, n))
    &&& forall|k: nat| k < n ==> folder.contains_key(#[trigger] nth_name(name, k))
}

/// A search through names that finds all those before it taken ends at the first
/// free name, or where there is none without a place.
proof fn search_ends_at_the_first_free_name(folder: Map<Seq<char>, u64>, p: Placement)
    requires
        p.at matches PlaceAt::Search(n) && n <= LAST_CANDIDATE && forall|k: nat|
            k < n ==> folder.contains_key(#[trigger] nth_name(p.name, k)),
    ensures
        ({
            let end = placed(folder, p);
            &&& end.name == p.name
            &&& end.size == p.size
            &&& if some_name_is_free(folder, p.name) {
                &&& end.at matches PlaceAt::Settled(n, offset)
                &&& offset == 0
                &&& is_first_free(folder, p.name, n as nat)
            } else {
                end.at is Full
            }
        }),
    decreases questions(p),
{
    let n = p.at->Search_0;
    let next = p.after(existing(folder, p.current()));
    if !folder.contains_key(nth_name(p.name, n as nat)) {
        assert(next.at == PlaceAt::Settled(n, 0));
        assert(placed(folder, next) == next);
        assert(is_first_free(folder, p.name, n as nat));
    } else if n < LAST_CANDIDATE {
        assert forall|k: nat| k < n + 1 implies folder.contains_key(
            #[trigger] nth_name(p.name, k),
        ) by {
            if k == n {
            }
        }
        search_ends_at_the_first_free_name(folder, next);
    } else {
        assert(next.at is Full);
        assert(placed(folder, next) == next);
        assert(!some_name_is_free(folder, p.name));
    }
}

/// Where a file goes: under its name if the name is free or holds the beginning
/// of it, else under the first name that is free, and nowhere if none is.
pub proof fn a_file_finds_its_place(folder: Map<Seq<char>, u64>, name: Seq<char>, size: u64)
    ensures
        ({
            let end = placed(folder, Placement { name, size, at: PlaceAt::First });
            &&& end.name == name
            &&& end.size == size
            &&& if !folder.contains_key(name) {
                end.at == PlaceAt::Settled(0, 0)
            } else if folder[name] < size {
                end.at == PlaceAt::Settled(0, folder[name])
            } else if some_name_is_free(folder, name) {
                &&& end.at matches PlaceAt::Settled(n, offset)
                &&& n > 0
                &&& offset == 0
                &&& is_first_free(folder, name, n as nat)
            } else {
                end.at is Full
            }
        }),
{
    let p = Placement { name, size, at: PlaceAt::First };
    let next = p.after(existing(folder, name));
    assert(placed(folder, p) == placed(folder, next));
    if folder.contains_key(name) && folder[name] >= size {
        search_ends_at_the_first_free_name(folder, next);
        assert(nth_name(name, 0) == name);
    } else {
        assert(placed(folder, next) == next);
    }
}

/// No file is overwritten, however many names are taken: where a file goes there is
/// either none yet, or one of which every byte is kept and which is shorter than the
/// one to come. A file that has no such place goes nowhere.
pub proof fn no_file_is_overwritten(folder: Map<Seq<char>, u64>, name: Seq<char>, size: u64)
    ensures
        ({
            let end = placed(folder, Placement { name, size, at: PlaceAt::First });
            &&& end.is_over()
            &&& end.at matches PlaceAt::Settled(_, offset) ==> {
                &&& folder.contains_key(end.current()) ==> folder[end.current()] == offset < size
                &&& !folder.contains_key(end.current()) ==> offset == 0
            }
        }),
{
    a_file_finds_its_place(folder, name, size);
    assert(nth_name(name, 0) == name);
}

/// Off Windows a piece of a path between slashes is a part of the way, white space around
/// it left aside, unless it is empty, `.` or `..`. Those three alone are left out, and
/// nothing else about the way changes.
pub proof fn a_piece_is_a_part_unless_it_leads_nowhere(
    platform: Platform,
    path: Seq<char>,
    piece: Seq<char>,
)
    requires
        platform != Platform::Windows,
        !piece.contains('/'),
    ensures
        ({
            let part = trim(piece);
            let nowhere = part.len() == 0 || part == seq!['.'] || part == seq!['.', '.'];
            &&& parts_of(platform, path + seq!['/'] + piece) == if nowhere {
                parts_of(platform, path)
            } else {
                parts_of(platform, path).push(part)
            }
            &&& parts_of(platform, piece) == if nowhere {
                Seq::empty()
            } else {
                seq![part]
            }
        }),
{
    let part = trim(piece);
    dots_are_dots(part);
    the_last_piece_stands_last(path, piece, '/');
    let rows = pieces(path, '/');
    assert(rows.push(piece).drop_last() == rows);
    assert(rows.push(piece).last() == piece);
    only_piece(piece, '/');
    assert(seq![piece].drop_last() == Seq::<Seq<char>>::empty());
    assert(kept_parts(platform, seq![piece].drop_last()) == Seq::<Seq<char>>::empty());
    assert(seq![piece].last() == piece);
}

/// The two parts that are written with dots alone.
proof fn dots_are_dots(part: Seq<char>)
    ensures
        (part == "."@) == (part == seq!['.']),
        (part == ".."@) == (part == seq!['.', '.']),
{
    reveal_strlit(".");
    reveal_strlit("..");
    assert("."@ == seq!['.']);
    assert(".."@ == seq!['.', '.']);
}

/// Off Windows a path made of names, none of them empty, `.` or `..`, leads through all of
/// them, in order, to the file of the last name.
pub proof fn a_path_of_names_leads_through_all_of_them(
    platform: Platform,
    names: Seq<Seq<char>>,
)
    requires
        platform != Platform::Windows,
        names.len() > 0,
        forall|k: int|
            0 <= k < names.len() ==> {
                &&& !(#[trigger] names[k]).contains('/')
                &&& trim(names[k]).len() > 0
                &&& trim(names[k]) != seq!['.']
                &&& trim(names[k]) != seq!['.', '.']
            },
    ensures
        parts_of(platform, with_between(names, '/')) == names.map_values(
            |name: Seq<char>| trim(name),
        ),
    decreases names.len(),
{
    let shown = |name: Seq<char>| trim(name);
    let last = names[names.len() - 1];
    let init = names.drop_last();
    if init.len() == 0 {
        a_piece_is_a_part_unless_it_leads_nowhere(platform, last, last);
        assert(names.map_values(shown) == seq![trim(last)]);
    } else {
        assert forall|k: int| 0 <= k < init.len() implies {
            &&& !(#[trigger] init[k]).contains('/')
            &&& trim(init[k]).len() > 0
            &&& trim(init[k]) != seq!['.']
            &&& trim(init[k]) != seq!['.', '.']
        } by {
            assert(init[k] == names[k]);
        }
        a_path_of_names_leads_through_all_of_them(platform, init);
        a_piece_is_a_part_unless_it_leads_nowhere(platform, with_between(init, '/'), last);
        assert(names.map_values(shown) == init.map_values(shown).push(trim(last)));
    }
}

/// On Windows the same holds of a piece between slashes of either kind, as long as it does
/// not begin with a letter and a colon.
pub proof fn on_windows_a_piece_is_a_part_unless_it_leads_nowhere(
    path: Seq<char>,
    slash: char,
    piece: Seq<char>,
)
    requires
        slash == '/' || slash == '\\',
        !piece.contains('/'),
        !piece.contains('\\'),
        !(trim(piece).len() >= 2 && trim(piece)[1] == ':' && ('a' <= trim(piece)[0] <= 'z' || 'A'
            <= trim(piece)[0] <= 'Z')),
    ensures
        ({
            let part = trim(piece);
            let nowhere = part.len() == 0 || part == seq!['.'] || part == seq!['.', '.'];
            parts_of(Platform::Windows, path + seq![slash] + piece) == if nowhere {
                parts_of(Platform::Windows, path)
            } else {
                parts_of(Platform::Windows, path).push(part)
            }
        }),
{
    let part = trim(piece);
    dots_are_dots(part);
    assert forall|k: int| 0 <= k < piece.len() implies piece[k] != '\\' by {
        assert(piece.contains(piece[k]));
    }
    assert(with_slashes(piece) == piece);
    assert(with_slashes(path + seq![slash] + piece) == with_slashes(path) + seq!['/'] + piece);
    the_last_piece_stands_last(with_slashes(path), piece, '/');
    let rows = pieces(with_slashes(path), '/');
    assert(rows.push(piece).drop_last() == rows);
    assert(rows.push(piece).last() == piece);
}

/// On Windows a drive in front of a piece makes no difference to the way.
pub proof fn on_windows_a_drive_makes_no_difference(
    path: Seq<char>,
    slash: char,
    letter: char,
    rest: Seq<char>,
)
    requires
        slash == '/' || slash == '\\',
        'a' <= letter <= 'z' || 'A' <= letter <= 'Z',
        !rest.contains('/'),
        !rest.contains('\\'),
    ensures
        parts_of(Platform::Windows, path + seq![slash] + (seq![letter, ':'] + rest)) == parts_of(
            Platform::Windows,
            path + seq![slash] + rest,
        ),
{
    let piece = seq![letter, ':'] + rest;
    assert forall|k: int| 0 <= k < rest.len() implies rest[k] != '\\' && rest[k] != '/' by {
        assert(rest.contains(rest[k]));
    }
    assert(with_slashes(piece) == piece);
    assert(with_slashes(rest) == rest);
    assert(!piece.contains('/'));
    let front = with_slashes(path);
    assert(with_slashes(path + seq![slash] + piece) == front + seq!['/'] + piece);
    assert(with_slashes(path + seq![slash] + rest) == front + seq!['/'] + rest);
    the_last_piece_stands_last(front, piece, '/');
    the_last_piece_stands_last(front, rest, '/');
    let rows = pieces(front, '/');
    assert(rows.push(piece).drop_last() == rows);
    assert(rows.push(rest).drop_last() == rows);
    trimming_behind_a_drive(letter, rest);
    let whole = trim(piece);
    assert(has_drive(whole));
    assert(behind_drives(whole) == behind_drives(trim(whole.skip(2))));
}

/// Behind a drive the same is left as without it.
proof fn trimming_behind_a_drive(letter: char, rest: Seq<char>)
    requires
        'a' <= letter <= 'z' || 'A' <= letter <= 'Z',
    ensures
        trim(seq![letter, ':'] + rest).len() >= 2,
        trim(seq![letter, ':'] + rest)[0] == letter,
        trim(seq![letter, ':'] + rest)[1] == ':',
        trim(trim(seq![letter, ':'] + rest).skip(2)) == trim(rest),
{
    let piece = seq![letter, ':'] + rest;
    let x = trim(piece);
    let (lo, hi) = trimming_takes_white_space_alone(piece);
    let (i, j) = trimming_takes_white_space_alone(rest);
    assert(piece[0] == letter && piece[1] == ':');
    assert(lo == 0);
    assert(hi >= 2);
    let tail = x.skip(2);
    assert(tail == rest.take(hi - 2));
    let t = trim(rest);
    if t.len() > 0 {
        assert(rest[j - 1] == t.last());
        assert(piece[j + 1] == rest[j - 1]);
        assert(hi >= j + 2);
        let a = rest.take(i);
        let b = rest.subrange(j, hi - 2);
        assert(tail == a + t + b);
        white_space_around_makes_no_difference(a, t, b);
    } else {
        assert forall|k: int| 0 <= k < tail.len() implies is_white_space(#[trigger] tail[k]) by {
            assert(tail[k] == rest[k]);
        }
        let none = Seq::<char>::empty();
        assert(tail == tail + none + none);
        white_space_around_makes_no_difference(tail, none, none);
        assert(t == none);
    }
}

/// A path is named to the other side character for character, except that every backslash
/// becomes a slash; what stands below a folder is named with a slash between the two.
pub proof fn slashes_alone_are_changed(path: Seq<char>, folder: Seq<char>, rest: Seq<char>)
    ensures
        with_slashes(path).len() == path.len(),
        !with_slashes(path).contains('\\'),
        forall|k: int|
            0 <= k < path.len() ==> #[trigger] with_slashes(path)[k] == path[k] || (path[k] == '\\'
                && with_slashes(path)[k] == '/'),
        folder.len() > 0 ==> below(folder, rest) == with_slashes(folder + seq!['/'] + rest),
        below(Seq::empty(), rest) == with_slashes(rest),
{
    assert(with_slashes(folder) + seq!['/'] + with_slashes(rest) == with_slashes(
        folder + seq!['/'] + rest,
    ));
}

/// A name is its stem and its extension. The extension is empty or begins with the last
/// dot of the name, and only a name without a dot behind its first character, or the name
/// of two dots, has none.
pub proof fn a_name_is_stem_and_extension(name: Seq<char>)
    ensures
        stem_of(name) + suffix_of(name) == name,
        suffix_of(name).len() > 0 ==> {
            &&& stem_of(name).len() > 0
            &&& suffix_of(name)[0] == '.'
            &&& forall|k: int| 0 < k < suffix_of(name).len() ==> #[trigger] suffix_of(name)[k] != '.'
        },
        suffix_of(name).len() == 0 ==> name == seq!['.', '.'] || forall|k: int|
            0 < k < name.len() ==> #[trigger] name[k] != '.',
{
    the_last_dot_is_last(name);
    dots_are_dots(name);
    if has_extension(name) {
        assert(name.take(last_dot(name)) + name.skip(last_dot(name)) == name);
    } else {
        assert(name + Seq::<char>::empty() == name);
    }
}

proof fn the_last_dot_is_last(name: Seq<char>)
    ensures
        -1 <= last_dot(name) < name.len(),
        last_dot(name) >= 0 ==> name[last_dot(name)] == '.',
        forall|k: int| last_dot(name) < k < name.len() ==> #[trigger] name[k] != '.',
    decreases name.len(),
{
    if name.len() > 0 && name.last() != '.' {
        the_last_dot_is_last(name.drop_last());
        assert forall|k: int| last_dot(name) < k < name.len() implies #[trigger] name[k] != '.' by {
            if k < name.len() - 1 {
                assert(name.drop_last()[k] == name[k]);
            }
        }
    }
}

/// A name that is tried in place of another has the same beginning and the same
/// extension, with a space and its number in brackets between them. No two names that are
/// tried are the same, and the last of them is number 9,999.
pub proof fn no_two_names_that_are_tried_are_the_same(name: Seq<char>, n: nat, m: nat)
    ensures
        nth_name(name, 0) == name,
        n > 0 ==> nth_name(name, n) == stem_of(name) + seq![' ', '('] + decimal(n) + seq![')']
            + suffix_of(name),
        n != m ==> nth_name(name, n) != nth_name(name, m),
        LAST_CANDIDATE == 9_999,
{
    reveal_strlit(" (");
    reveal_strlit(")");
    assert(" ("@ == seq![' ', '(']);
    assert(")"@ == seq![')']);
    a_name_is_stem_and_extension(name);
    a_number_is_read_back(n);
    a_number_is_read_back(m);
    if n != m && nth_name(name, n) == nth_name(name, m) {
        let stem = stem_of(name).len() as int;
        let suffix = suffix_of(name).len() as int;
        let x = nth_name(name, n);
        let y = nth_name(name, m);
        assert(name.len() == stem + suffix);
        if n > 0 {
            assert(x.len() == name.len() + 3 + decimal(n).len());
        }
        if m > 0 {
            assert(y.len() == name.len() + 3 + decimal(m).len());
        }
        assert(n > 0 && m > 0);
        let k = decimal(n).len() as int;
        assert(decimal(m).len() == k);
        assert(x.subrange(stem + 2, stem + 2 + k) == decimal(n));
        assert(y.subrange(stem + 2, stem + 2 + k) == decimal(m));
        assert(number_of(decimal(n)) == number_of(decimal(m)));
    }
}

} // verus!
