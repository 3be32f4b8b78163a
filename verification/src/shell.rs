//! What the program has to do with the system around it: the name of the wireless
//! network, the programs that open files, how sending failed, and the menu.

use crate::text::{
    a_pattern_stands_where_its_characters_do, a_pattern_that_is_there_is_found, chars_of, find_from,
    has_match, is_blank, is_first_match, is_white_space, matches_at, pieces, rows_view,
    split_at_char, string_of, text_at, texts_view, trim, trim_end, trim_start, trimmed,
    white_space_around_makes_no_difference,
};
use vstd::prelude::*;
use vstd::string::StringExecFns;

verus! {

/// Why the name of the wireless network is not known.
#[derive(Clone, Copy, Debug, PartialEq, Eq, Structural)]
pub enum SsidError {
    /// The system keeps it back, or wireless is off.
    Withheld,
    /// There is no wireless network.
    NotFound,
    /// There is no way to ask the system.
    Unsupported,
}

impl SsidError {
    /// The message for the user.
    pub open spec fn text(self) -> Seq<char> {
        match self {
            SsidError::Withheld => "Apple Gizlilik Koruması ya da Wi-Fi kapalı"@,
            SsidError::NotFound => "WiFi ağı bulunamadı"@,
            SsidError::Unsupported => "Bu platform desteklenmiyor"@,
        }
    }

    /// The message for the user.
    pub fn message(&self) -> (text: &'static str)
        ensures
            text@ == self.text(),
    {
        match self {
            SsidError::Withheld => "Apple Gizlilik Koruması ya da Wi-Fi kapalı",
            SsidError::NotFound => "WiFi ağı bulunamadı",
            SsidError::Unsupported => "Bu platform desteklenmiyor",
        }
    }
}

/// What stands behind the first `": "` of `text`, white space around it left aside: the
/// heading ends there, and the name may hold another.
pub open spec fn behind_heading(text: Seq<char>) -> Option<Seq<char>> {
    let t = trim(text);
    if has_match(t, ": "@, 0) {
        Some(trim(t.skip((choose|i: int| is_first_match(t, ": "@, 0, i)) + 2)))
    } else {
        None
    }
}

/// What `networksetup` prints is a heading and the name. The name is given back whole,
/// whatever it holds.
pub proof fn the_name_behind_the_heading_is_whole(name: Seq<char>)
    requires
        name.len() > 0,
        !is_white_space(name.first()),
        !is_white_space(name.last()),
    ensures
        behind_heading("Current Wi-Fi Network: "@ + name + seq!['\n']) == Some(name),
{
    reveal_strlit("Current Wi-Fi Network: ");
    reveal_strlit(": ");
    reveal_with_fuel(trim_end, 3);
    reveal_with_fuel(trim_start, 2);
    let line = "Current Wi-Fi Network: "@ + name;
    let text = line + seq!['\n'];
    assert(text.first() == 'C');
    assert(trim_start(text) == text);
    assert(text.last() == '\n');
    assert(text.drop_last() == line);
    assert(line.last() == name.last());
    assert(trim(text) == line);
    assert(line.subrange(21, 23) == ": "@);
    assert(matches_at(line, ": "@, 21));
    assert forall|j: int| 0 <= j < 21 implies !#[trigger] matches_at(line, ": "@, j) by {
        if matches_at(line, ": "@, j) {
            assert(line.subrange(j, j + 2)[0] == ':');
        }
    }
    assert(is_first_match(line, ": "@, 0, 21));
    let i = choose|i: int| is_first_match(line, ": "@, 0, i);
    assert(i == 21);
    assert(line.skip(23) == name);
    assert(trim(name) == name);
}

/// The name of the network in what `networksetup -getairportnetwork` prints.
pub fn ssid_from_networksetup(text: &str) -> (ssid: Result<String, SsidError>)
    ensures
        match behind_heading(text@) {
            Some(name) => if name.len() > 0 {
                ssid matches Ok(s) && s@ == name
            } else {
                ssid matches Err(e) && e == SsidError::Withheld
            },
            None => ssid matches Err(e) && e == SsidError::Withheld,
        },
{
    let chars = chars_of(text);
    let t = trimmed(chars.as_slice());
    let colon = chars_of(": ");
    proof {
        reveal_strlit(": ");
    }
    match find_from(t, colon.as_slice(), 0) {
        Some(i) => {
            proof {
                assert(is_first_match(t@, ": "@, 0, i as int));
                let j = choose|j: int| is_first_match(t@, ": "@, 0, j);
                assert(i == j);
            }
            let n: usize = t.len();
            let name = trimmed(vstd::slice::slice_subrange(t, i + 2, n));
            proof {
                assert(t@.subrange(i + 2, t@.len() as int) == t@.skip(i + 2));
            }
            if name.len() > 0 {
                Ok(string_of(name))
            } else {
                Err(SsidError::Withheld)
            }
        },
        None => Err(SsidError::Withheld),
    }
}

/// `s` up to the first `": "` in it.
pub open spec fn up_to_colon(s: Seq<char>) -> Seq<char> {
    if has_match(s, ": "@, 0) {
        s.take(choose|i: int| is_first_match(s, ": "@, 0, i))
    } else {
        s
    }
}

/// The name of the network in a line, if it is the line with the name: what stands
/// behind the first `": "`, up to the next.
pub open spec fn ssid_of_line(line: Seq<char>) -> Option<Seq<char>> {
    let t = trim(line);
    if matches_at(t, "SSID"@, 0) && has_match(t, ": "@, 0) {
        let i = choose|i: int| is_first_match(t, ": "@, 0, i);
        Some(trim(up_to_colon(t.skip(i + 2))))
    } else {
        None
    }
}

/// The name in the first of `lines` that has one.
pub open spec fn first_ssid(lines: Seq<Seq<char>>) -> Option<Seq<char>>
    decreases lines.len(),
{
    if lines.len() == 0 {
        None
    } else {
        match first_ssid(lines.drop_last()) {
            Some(name) => Some(name),
            None => ssid_of_line(lines.last()),
        }
    }
}

/// The name of the network in a line, if it is the line with the name.
fn line_ssid(line: &[char]) -> (ssid: Option<String>)
    ensures
        match ssid_of_line(line@) {
            Some(name) => ssid matches Some(s) && s@ == name,
            None => ssid is None,
        },
{
    let t = trimmed(line);
    let head = chars_of("SSID");
    let colon = chars_of(": ");
    proof {
        reveal_strlit(": ");
    }
    if !text_at(t, head.as_slice(), 0) {
        return None;
    }
    match find_from(t, colon.as_slice(), 0) {
        Some(i) => {
            let n: usize = t.len();
            let rest = vstd::slice::slice_subrange(t, i + 2, n);
            proof {
                let k = choose|k: int| is_first_match(t@, ": "@, 0, k);
                assert(is_first_match(t@, ": "@, 0, i as int));
                assert(k == i);
                assert(rest@ == t@.skip(i + 2));
            }
            let name = match find_from(rest, colon.as_slice(), 0) {
                Some(j) => {
                    proof {
                        let k = choose|k: int| is_first_match(rest@, ": "@, 0, k);
                        assert(is_first_match(rest@, ": "@, 0, j as int));
                        assert(k == j);
                        assert(rest@.subrange(0, j as int) == rest@.take(j as int));
                    }
                    vstd::slice::slice_subrange(rest, 0, j)
                },
                None => rest,
            };
            Some(string_of(trimmed(name)))
        },
        None => None,
    }
}

/// The name of the network in what `netsh wlan show interfaces` prints.
pub fn ssid_from_netsh(text: &str) -> (ssid: Result<String, SsidError>)
    ensures
        match first_ssid(pieces(text@, '\n')) {
            Some(name) => ssid matches Ok(s) && s@ == name,
            None => ssid matches Err(e) && e == SsidError::NotFound,
        },
{
    let chars = chars_of(text);
    let rows = split_at_char(chars.as_slice(), '\n');
    let ghost all = pieces(text@, '\n');
    let mut i: usize = 0;
    while i < rows.len()
        invariant
            i <= rows@.len(),
            rows_view(rows@) == all,
            all == pieces(text@, '\n'),
            first_ssid(all.take(i as int)) is None,
        decreases rows@.len() - i,
    {
        proof {
            assert(all.take(i + 1).drop_last() == all.take(i as int));
            assert(rows_view(rows@)[i as int] == rows@[i as int]@);
            assert(all.take(i + 1).last() == rows@[i as int]@);
        }
        match line_ssid(rows[i].as_slice()) {
            Some(name) => {
                proof {
                    first_ssid_stands(all, i + 1);
                }
                return Ok(name);
            },
            None => {},
        }
        i += 1;
    }
    proof {
        assert(all.take(i as int) == all);
    }
    Err(SsidError::NotFound)
}

/// The first name is the same however many lines come behind it.
proof fn first_ssid_stands(lines: Seq<Seq<char>>, n: int)
    requires
        0 <= n <= lines.len(),
        first_ssid(lines.take(n)) is Some,
    ensures
        first_ssid(lines) == first_ssid(lines.take(n)),
    decreases lines.len() - n,
{
    if n == lines.len() {
        assert(lines.take(n) == lines);
    } else {
        assert(lines.take(n + 1).drop_last() == lines.take(n));
        first_ssid_stands(lines, n + 1);
    }
}

/// The system that the program runs on.
#[derive(Clone, Copy, Debug, PartialEq, Eq, Structural)]
pub enum Platform {
    MacOs,
    Windows,
    Linux,
    Other,
}

/// A program to start, with its arguments.
#[derive(Debug)]
pub struct Launch {
    pub program: String,
    pub args: Vec<String>,
}

/// `launch` starts `program` with `args`.
pub open spec fn starts(launch: Option<Launch>, program: Seq<char>, args: Seq<Seq<char>>) -> bool {
    launch matches Some(l) && l.program@ == program && texts_view(l.args@) == args
}

/// The program `program` with one argument.
fn with_one(program: &str, arg: &str) -> (launch: Launch)
    ensures
        starts(Some(launch), program@, seq![arg@]),
{
    let mut args: Vec<String> = Vec::new();
    args.push(arg.to_string());
    proof {
        assert(texts_view(args@) == seq![arg@]);
    }
    Launch { program: program.to_string(), args }
}

/// The program `program` with two arguments.
fn with_two(program: &str, first: &str, second: &str) -> (launch: Launch)
    ensures
        starts(Some(launch), program@, seq![first@, second@]),
{
    let mut args: Vec<String> = Vec::new();
    args.push(first.to_string());
    args.push(second.to_string());
    proof {
        assert(texts_view(args@) == seq![first@, second@]);
    }
    Launch { program: program.to_string(), args }
}

/// The program that shows the file at `path` in its folder, where there is one.
pub fn show_in_folder(platform: Platform, path: &str) -> (launch: Option<Launch>)
    ensures
        match platform {
            Platform::Windows => starts(launch, "explorer"@, seq!["/select,"@, path@]),
            Platform::MacOs => starts(launch, "open"@, seq!["-R"@, path@]),
            Platform::Linux => starts(launch, "xdg-open"@, seq![path@]),
            Platform::Other => launch is None,
        },
{
    match platform {
        Platform::Windows => Some(with_two("explorer", "/select,", path)),
        Platform::MacOs => Some(with_two("open", "-R", path)),
        Platform::Linux => Some(with_one("xdg-open", path)),
        Platform::Other => None,
    }
}

/// The program that opens the file at `path`, where there is one.
pub fn open_file(platform: Platform, path: &str) -> (launch: Option<Launch>)
    ensures
        match platform {
            Platform::Windows => starts(launch, "explorer"@, seq![path@]),
            Platform::MacOs => starts(launch, "open"@, seq![path@]),
            Platform::Linux => starts(launch, "xdg-open"@, seq![path@]),
            Platform::Other => launch is None,
        },
{
    match platform {
        Platform::Windows => Some(with_one("explorer", path)),
        Platform::MacOs => Some(with_one("open", path)),
        Platform::Linux => Some(with_one("xdg-open", path)),
        Platform::Other => None,
    }
}

/// The program that prints the name of the wireless network, where there is one.
pub fn ssid_query(platform: Platform) -> (launch: Option<Launch>)
    ensures
        match platform {
            Platform::MacOs => starts(
                launch,
                "networksetup"@,
                seq!["-getairportnetwork"@, "en0"@],
            ),
            Platform::Windows => starts(launch, "netsh"@, seq!["wlan"@, "show"@, "interfaces"@]),
            _ => launch is None,
        },
{
    match platform {
        Platform::MacOs => Some(with_two("networksetup", "-getairportnetwork", "en0")),
        Platform::Windows => {
            let mut args: Vec<String> = Vec::new();
            args.push("wlan".to_string());
            args.push("show".to_string());
            args.push("interfaces".to_string());
            proof {
                assert(texts_view(args@) == seq!["wlan"@, "show"@, "interfaces"@]);
            }
            Some(Launch { program: "netsh".to_string(), args })
        },
        _ => None,
    }
}

/// `ssid` is what the system `platform` says with `output` of the wireless network.
pub open spec fn is_ssid(
    ssid: Result<String, SsidError>,
    platform: Platform,
    output: Seq<char>,
) -> bool {
    match platform {
        Platform::MacOs => match behind_heading(output) {
            Some(name) => if name.len() > 0 {
                ssid matches Ok(s) && s@ == name
            } else {
                ssid matches Err(e) && e == SsidError::Withheld
            },
            None => ssid matches Err(e) && e == SsidError::Withheld,
        },
        Platform::Windows => match first_ssid(pieces(output, '\n')) {
            Some(name) => ssid matches Ok(s) && s@ == name,
            None => ssid matches Err(e) && e == SsidError::NotFound,
        },
        _ => ssid matches Err(e) && e == SsidError::Unsupported,
    }
}

/// The name of the wireless network, from what the program of `ssid_query` printed.
pub fn get_wifi_ssid(platform: Platform, output: &str) -> (ssid: Result<String, SsidError>)
    ensures
        is_ssid(ssid, platform, output@),
{
    match platform {
        Platform::MacOs => ssid_from_networksetup(output),
        Platform::Windows => ssid_from_netsh(output),
        _ => Err(SsidError::Unsupported),
    }
}

/// What the user is told of a transfer that did not go out.
pub open spec fn send_failure(error: Seq<char>) -> Seq<char> {
    if has_match(error, "İPTAL_EDİLDİ"@, 0) {
        "Transfer iptal edildi."@
    } else {
        "Hata: "@ + error
    }
}

/// What the user is told of a transfer that did not go out.
pub fn send_failure_text(error: &str) -> (text: String)
    ensures
        text@ == send_failure(error@),
{
    let chars = chars_of(error);
    let cancelled = chars_of("İPTAL_EDİLDİ");
    match find_from(chars.as_slice(), cancelled.as_slice(), 0) {
        Some(i) => {
            proof {
                assert(matches_at(error@, "İPTAL_EDİLDİ"@, i as int));
            }
            "Transfer iptal edildi.".to_string()
        },
        None => {
            let mut text = "Hata: ".to_string();
            text.append(error);
            text
        },
    }
}

/// What an entry of the menu does.
#[derive(Clone, Copy, Debug, PartialEq, Eq, Structural)]
pub enum MenuAction {
    /// The program ends.
    Quit,
    /// The window comes to the front.
    Show,
    /// Nothing.
    Ignore,
}

/// What the entry `id` of the menu does.
pub fn menu_action(id: &String) -> (action: MenuAction)
    ensures
        action == if id@ == "quit"@ {
            MenuAction::Quit
        } else if id@ == "show"@ {
            MenuAction::Show
        } else {
            MenuAction::Ignore
        },
{
    if *id == "quit".to_string() {
        MenuAction::Quit
    } else if *id == "show".to_string() {
        MenuAction::Show
    } else {
        MenuAction::Ignore
    }
}

/// In `s`, no `": "` begins in front of position `at`.
pub open spec fn no_colon_before(s: Seq<char>, at: int) -> bool {
    forall|j: int| 0 <= j < at && j + 1 < s.len() && #[trigger] s[j] == ':' ==> s[j + 1] != ' '
}

/// Where the first `": "` of a text stands, if none begins in front of it.
proof fn the_first_colon(s: Seq<char>, at: int)
    requires
        0 <= at,
        at + 1 < s.len(),
        s[at] == ':',
        s[at + 1] == ' ',
        no_colon_before(s, at),
    ensures
        has_match(s, ": "@, 0),
        (choose|i: int| is_first_match(s, ": "@, 0, i)) == at,
{
    reveal_strlit(": ");
    a_pattern_stands_where_its_characters_do(s, ": "@, at);
    assert(": "@[0] == ':' && ": "@[1] == ' ');
    assert forall|j: int| 0 <= j < at implies !#[trigger] matches_at(s, ": "@, j) by {
        a_pattern_stands_where_its_characters_do(s, ": "@, j);
        if matches_at(s, ": "@, j) {
            assert(s[j + 0] == ": "@[0]);
            assert(s[j + 1] == ": "@[1]);
        }
    }
    assert(matches_at(s, ": "@, at));
    assert(is_first_match(s, ": "@, 0, at));
    let i = choose|i: int| is_first_match(s, ": "@, 0, i);
    assert(is_first_match(s, ": "@, 0, i));
    if i < at {
        assert(!matches_at(s, ": "@, i));
    } else if i > at {
        assert(!matches_at(s, ": "@, at));
    }
}

/// A text in which no `": "` begins anywhere has none.
proof fn no_colon_at_all(s: Seq<char>)
    requires
        no_colon_before(s, s.len() as int),
    ensures
        !has_match(s, ": "@, 0),
{
    reveal_strlit(": ");
    assert forall|j: int| 0 <= j implies !#[trigger] matches_at(s, ": "@, j) by {
        a_pattern_stands_where_its_characters_do(s, ": "@, j);
        if matches_at(s, ": "@, j) {
            assert(s[j + 0] == ": "@[0]);
            assert(s[j + 1] == ": "@[1]);
        }
    }
}

/// Whatever heading `networksetup` prints, and whatever white space stands round the line, the
/// name behind the heading is given back whole, even where it holds a colon itself.
pub proof fn the_name_behind_any_heading_is_whole(
    before: Seq<char>,
    heading: Seq<char>,
    name: Seq<char>,
    after: Seq<char>,
)
    requires
        is_blank(before, 0, before.len() as int),
        is_blank(after, 0, after.len() as int),
        heading.len() > 0,
        !is_white_space(heading.first()),
        no_colon_before(heading + seq![':', ' '], heading.len() as int),
        name.len() > 0,
        !is_white_space(name.first()),
        !is_white_space(name.last()),
    ensures
        behind_heading(before + (heading + seq![':', ' '] + name) + after) == Some(name),
{
    let line = heading + seq![':', ' '] + name;
    let head = heading + seq![':', ' '];
    assert(line.first() == heading.first());
    assert(line.last() == name.last());
    white_space_around_makes_no_difference(before, line, after);
    let at = heading.len() as int;
    assert forall|j: int| 0 <= j < at && j + 1 < line.len() && #[trigger] line[j] == ':' implies
        line[j + 1] != ' ' by {
        assert(head[j] == line[j]);
        assert(head[j + 1] == line[j + 1]);
    }
    the_first_colon(line, at);
    assert(line.skip(at + 2) == name);
    white_space_around_makes_no_difference(Seq::empty(), name, Seq::empty());
}

/// Where no `": "` stands in what the system prints, it names no network.
pub proof fn without_a_heading_there_is_no_name(text: Seq<char>)
    requires
        no_colon_before(trim(text), trim(text).len() as int),
    ensures
        behind_heading(text) is None,
{
    no_colon_at_all(trim(text));
}

/// The line of `netsh` with the name: it begins with `SSID`, and whatever stands round it, the
/// name behind the colon is given back.
pub proof fn the_line_with_the_name_gives_it(
    before: Seq<char>,
    gap: Seq<char>,
    name: Seq<char>,
    after: Seq<char>,
)
    requires
        is_blank(before, 0, before.len() as int),
        is_blank(gap, 0, gap.len() as int),
        is_blank(after, 0, after.len() as int),
        name.len() > 0,
        !is_white_space(name.first()),
        !is_white_space(name.last()),
        no_colon_before(name, name.len() as int),
    ensures
        ssid_of_line(
            before + (seq!['S', 'S', 'I', 'D'] + gap + seq![':', ' '] + name) + after,
        ) == Some(name),
{
    reveal_strlit("SSID");
    let head = seq!['S', 'S', 'I', 'D'] + gap;
    let line = head + seq![':', ' '] + name;
    assert(line.first() == 'S');
    assert(line.last() == name.last());
    white_space_around_makes_no_difference(before, line, after);
    assert(line.subrange(0, 4) == "SSID"@);
    assert(matches_at(line, "SSID"@, 0));
    let at = head.len() as int;
    assert forall|j: int| 0 <= j < at && j + 1 < line.len() && #[trigger] line[j] == ':' implies
        line[j + 1] != ' ' by {
        assert(head[j] == line[j]);
        if j >= 4 {
            assert(gap[j - 4] == line[j]);
            assert(is_white_space(gap[j - 4]));
        }
    }
    the_first_colon(line, at);
    assert(line.skip(at + 2) == name);
    no_colon_at_all(name);
    white_space_around_makes_no_difference(Seq::empty(), name, Seq::empty());
}

/// A line that does not begin with `SSID` gives no name: not the line with the identifier of
/// the access point, and no other.
pub proof fn another_line_gives_no_name(line: Seq<char>)
    requires
        ({
            let t = trim(line);
            t.len() < 4 || t[0] != 'S' || t[1] != 'S' || t[2] != 'I' || t[3] != 'D'
        }),
    ensures
        ssid_of_line(line) is None,
{
    reveal_strlit("SSID");
    let t = trim(line);
    a_pattern_stands_where_its_characters_do(t, "SSID"@, 0);
    if matches_at(t, "SSID"@, 0) {
        assert("SSID"@[0] == t[0]);
        assert("SSID"@[1] == t[1]);
        assert("SSID"@[2] == t[2]);
        assert("SSID"@[3] == t[3]);
    }
}

/// The first line that gives a name counts, whatever stands in the lines behind it.
pub proof fn the_first_name_counts(
    before: Seq<Seq<char>>,
    line: Seq<char>,
    after: Seq<Seq<char>>,
)
    requires
        forall|i: int| 0 <= i < before.len() ==> ssid_of_line(#[trigger] before[i]) is None,
        ssid_of_line(line) is Some,
    ensures
        first_ssid(before) is None,
        first_ssid(before.push(line) + after) == ssid_of_line(line),
    decreases before.len(),
{
    if before.len() > 0 {
        let init = before.drop_last();
        assert forall|i: int| 0 <= i < init.len() implies ssid_of_line(#[trigger] init[i]) is None by {
            assert(init[i] == before[i]);
        }
        the_first_name_counts(init, line, after);
        assert(before.last() == before[before.len() - 1]);
    }
    let lines = before.push(line) + after;
    let n = (before.len() + 1) as int;
    assert(lines.take(n) == before.push(line));
    assert(before.push(line).drop_last() == before);
    first_ssid_stands(lines, n);
}

/// Each system is asked in its own way: the name is the one behind the heading on macOS, the
/// first that a line gives on Windows, and never known elsewhere. An empty name is no name on
/// macOS.
pub proof fn each_system_says_the_name_in_its_way(
    ssid: Result<String, SsidError>,
    platform: Platform,
    output: Seq<char>,
)
    requires
        is_ssid(ssid, platform, output),
    ensures
        platform is MacOs ==> {
            let name = behind_heading(output);
            &&& ssid is Ok <==> name is Some && name->0.len() > 0
            &&& ssid matches Ok(s) ==> name == Some(s@)
            &&& ssid matches Err(e) ==> e == SsidError::Withheld
        },
        platform is Windows ==> {
            let name = first_ssid(pieces(output, '\n'));
            &&& ssid is Ok <==> name is Some
            &&& ssid matches Ok(s) ==> name == Some(s@)
            &&& ssid matches Err(e) ==> e == SsidError::NotFound
        },
        platform is Linux || platform is Other ==> {
            &&& ssid is Err
            &&& ssid matches Err(e) ==> e == SsidError::Unsupported
        },
{
}

/// A launch starts the program that it names, with the arguments that it has, in their order.
pub proof fn a_launch_starts_what_it_names(
    launch: Option<Launch>,
    program: Seq<char>,
    args: Seq<Seq<char>>,
)
    requires
        starts(launch, program, args),
    ensures
        launch is Some,
        launch->0.program@ == program,
        launch->0.args@.len() == args.len(),
        forall|k: int| 0 <= k < args.len() ==> (#[trigger] launch->0.args@[k])@ == args[k],
{
    let shown = texts_view(launch->0.args@);
    assert forall|k: int| 0 <= k < args.len() implies (#[trigger] launch->0.args@[k])@
        == args[k] by {
        assert(shown[k] == launch->0.args@[k]@);
    }
}

/// Whatever stands round the word for it, a transfer that was cancelled is shown as cancelled.
pub proof fn a_cancelled_transfer_is_shown_as_such(before: Seq<char>, after: Seq<char>)
    ensures
        send_failure(before + "İPTAL_EDİLDİ"@ + after) == "Transfer iptal edildi."@,
{
    a_pattern_that_is_there_is_found(before, "İPTAL_EDİLDİ"@, after);
}

/// Any other failure is shown with its reason, word for word.
pub proof fn any_other_failure_is_shown_with_its_reason(error: Seq<char>)
    requires
        forall|i: int, j: int|
            0 <= i <= j <= error.len() ==> #[trigger] error.subrange(i, j) != "İPTAL_EDİLDİ"@,
    ensures
        send_failure(error).len() == error.len() + 6,
        send_failure(error).take(6) == seq!['H', 'a', 't', 'a', ':', ' '],
        send_failure(error).skip(6) == error,
{
    reveal_strlit("İPTAL_EDİLDİ");
    reveal_strlit("Hata: ");
    assert("İPTAL_EDİLDİ"@.len() == 12);
    if has_match(error, "İPTAL_EDİLDİ"@, 0) {
        let i = choose|i: int| 0 <= i && #[trigger] matches_at(error, "İPTAL_EDİLDİ"@, i);
        assert(matches_at(error, "İPTAL_EDİLDİ"@, i));
        assert(error.subrange(i, i + 12) == "İPTAL_EDİLDİ"@);
    }
    assert(send_failure(error).take(6) == "Hata: "@);
    assert(send_failure(error).skip(6) == error);
}

/// No two reasons why the network is not known read the same.
pub proof fn no_two_network_errors_read_the_same(a: SsidError, b: SsidError)
    requires
        a.text() == b.text(),
    ensures
        a == b,
{
    reveal_strlit("Apple Gizlilik Koruması ya da Wi-Fi kapalı");
    reveal_strlit("WiFi ağı bulunamadı");
    reveal_strlit("Bu platform desteklenmiyor");
    assert("Apple Gizlilik Koruması ya da Wi-Fi kapalı"@[0] == 'A');
    assert("WiFi ağı bulunamadı"@[0] == 'W');
    assert("Bu platform desteklenmiyor"@[0] == 'B');
}

/// Where another colon stands behind the name in its line, the name ends there.
pub proof fn the_name_ends_at_the_next_colon(
    before: Seq<char>,
    gap: Seq<char>,
    name: Seq<char>,
    tail: Seq<char>,
    after: Seq<char>,
)
    requires
        is_blank(before, 0, before.len() as int),
        is_blank(gap, 0, gap.len() as int),
        is_blank(after, 0, after.len() as int),
        name.len() > 0,
        !is_white_space(name.first()),
        !is_white_space(name.last()),
        no_colon_before(name + seq![':', ' '], name.len() as int),
        tail.len() > 0,
        !is_white_space(tail.last()),
    ensures
        ssid_of_line(
            before + (seq!['S', 'S', 'I', 'D'] + gap + seq![':', ' '] + (name + seq![':', ' ']
                + tail)) + after,
        ) == Some(name),
{
    reveal_strlit("SSID");
    let head = seq!['S', 'S', 'I', 'D'] + gap;
    let rest = name + seq![':', ' '] + tail;
    let line = head + seq![':', ' '] + rest;
    assert(line.first() == 'S');
    assert(line.last() == tail.last());
    white_space_around_makes_no_difference(before, line, after);
    assert(line.subrange(0, 4) == "SSID"@);
    assert(matches_at(line, "SSID"@, 0));
    let at = head.len() as int;
    assert forall|j: int| 0 <= j < at && j + 1 < line.len() && #[trigger] line[j] == ':' implies
        line[j + 1] != ' ' by {
        assert(head[j] == line[j]);
        if j >= 4 {
            assert(gap[j - 4] == line[j]);
            assert(is_white_space(gap[j - 4]));
        }
    }
    the_first_colon(line, at);
    assert(line.skip(at + 2) == rest);
    let named = name + seq![':', ' '];
    let end = name.len() as int;
    assert forall|j: int| 0 <= j < end && j + 1 < rest.len() && #[trigger] rest[j] == ':' implies
        rest[j + 1] != ' ' by {
        assert(named[j] == rest[j]);
        assert(named[j + 1] == rest[j + 1]);
    }
    the_first_colon(rest, end);
    assert(rest.take(end) == name);
    white_space_around_makes_no_difference(Seq::empty(), name, Seq::empty());
}

} // verus!
