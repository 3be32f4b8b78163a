use std::collections::HashMap;
use std::path::Path;
use verishare::naming::{
    candidate, decide_resume, name_below, safe_parts, wire_path, Placing, Resume, LAST_CANDIDATE,
};
use verishare::shell::Platform;

const ALL: [Platform; 4] = [Platform::MacOs, Platform::Windows, Platform::Linux, Platform::Other];

#[test]
fn the_way_to_a_file_leads_down() {
    for p in ALL {
        assert_eq!(safe_parts(p, "a/b/c.txt"), vec!["a", "b", "c.txt"]);
        assert_eq!(safe_parts(p, "../../etc/passwd"), vec!["etc", "passwd"]);
        assert_eq!(safe_parts(p, "/mutlak/yol"), vec!["mutlak", "yol"]);
        assert_eq!(safe_parts(p, " a / .. /./ b.txt "), vec!["a", "b.txt"]);
        assert_eq!(safe_parts(p, "a//b/"), vec!["a", "b"]);
        assert_eq!(safe_parts(p, "...").len(), 1);
        assert_eq!(safe_parts(p, "ab:c/:d/1:e"), vec!["ab:c", ":d", "1:e"]);
        assert!(safe_parts(p, "").is_empty());
        assert!(safe_parts(p, "../.. /").is_empty());
    }
}

#[test]
fn on_windows_drives_and_both_slashes_count() {
    let w = Platform::Windows;
    assert_eq!(safe_parts(w, "..\\x"), vec!["x"]);
    assert_eq!(safe_parts(w, "C:\\Windows\\x.dll"), vec!["Windows", "x.dll"]);
    assert_eq!(safe_parts(w, "c:x"), vec!["x"]);
    assert_eq!(safe_parts(w, "C: D:..\\x/e:"), vec!["x"]);
    assert_eq!(safe_parts(w, "\\\\sunucu\\pay\\a"), vec!["sunucu", "pay", "a"]);
    assert_eq!(safe_parts(w, "k/a\\b.txt"), vec!["k", "a", "b.txt"]);
    assert!(safe_parts(w, "..\\.\\ C: /").is_empty());
}

#[test]
fn elsewhere_they_are_parts_of_names() {
    for p in [Platform::MacOs, Platform::Linux, Platform::Other] {
        assert_eq!(safe_parts(p, "A: foo.txt"), vec!["A: foo.txt"]);
        assert_eq!(safe_parts(p, "Q: foo.txt"), vec!["Q: foo.txt"]);
        assert_eq!(safe_parts(p, "C:"), vec!["C:"]);
        assert_eq!(safe_parts(p, "a\\b.txt"), vec!["a\\b.txt"]);
        assert_eq!(safe_parts(p, "k/..\\x"), vec!["k", "..\\x"]);
    }
}

#[test]
fn files_are_named_below_their_folder() {
    assert_eq!(name_below("klasör", "alt/dosya.txt"), "klasör/alt/dosya.txt");
    assert_eq!(name_below("klasör", "alt\\dosya.txt"), "klasör/alt/dosya.txt");
    assert_eq!(name_below("", "a\\b"), "a/b");
    assert_eq!(name_below("k\\l", "a"), "k/l/a");
}

#[test]
fn paths_are_named_with_slashes() {
    assert_eq!(wire_path("klasör\\alt\\dosya.txt"), "klasör/alt/dosya.txt");
    assert_eq!(wire_path("a/b"), "a/b");
    assert_eq!(wire_path(""), "");
}

#[test]
fn numbers_go_before_the_extension() {
    assert_eq!(candidate("rapor.pdf", 0), "rapor.pdf");
    assert_eq!(candidate("rapor.pdf", 1), "rapor (1).pdf");
    assert_eq!(candidate("arşiv.tar.gz", 2), "arşiv.tar (2).gz");
    assert_eq!(candidate("dosya", 3), "dosya (3)");
    assert_eq!(candidate(".gizli", 4), ".gizli (4)");
    assert_eq!(candidate("nokta.", 5), "nokta (5).");
    assert_eq!(candidate("..", 6), ".. (6)");
    assert_eq!(candidate("", 7), " (7)");
    assert_eq!(candidate("a.b", 9999), "a (9999).b");
}

#[test]
fn stems_and_extensions_are_those_of_path() {
    for name in ["a", "a.b", "a.b.c", ".a", ".a.b", "a.", "..a", "...", "a..b", "İ.ş"] {
        let path = Path::new(name);
        let stem = path.file_stem().unwrap().to_str().unwrap();
        let expected = match path.extension() {
            Some(e) => format!("{} ({}).{}", stem, 1, e.to_str().unwrap()),
            None => format!("{} ({})", stem, 1),
        };
        assert_eq!(candidate(name, 1), expected, "{}", name);
    }
}

#[test]
fn a_shorter_file_is_continued() {
    assert_eq!(decide_resume(None, 10), Resume::Fresh);
    assert_eq!(decide_resume(Some(0), 10), Resume::Continue(0));
    assert_eq!(decide_resume(Some(9), 10), Resume::Continue(9));
    assert_eq!(decide_resume(Some(10), 10), Resume::Rename);
    assert_eq!(decide_resume(Some(11), 10), Resume::Rename);
    assert_eq!(decide_resume(Some(0), 0), Resume::Rename);
}

fn search(folder: &HashMap<String, u64>, name: &str, size: u64) -> (Placing, u32) {
    let mut p = Placing::new(name.to_string(), size);
    let mut questions = 0;
    while p.settled().is_none() && !p.is_full() {
        let existing = folder.get(&p.current()).copied();
        p = p.answer(existing);
        questions += 1;
    }
    (p, questions)
}

fn place(folder: &HashMap<String, u64>, name: &str, size: u64) -> (String, u64, u32) {
    let (p, questions) = search(folder, name, size);
    (p.current(), p.settled().unwrap(), questions)
}

#[test]
fn a_file_finds_the_first_free_name() {
    let mut folder = HashMap::new();
    assert_eq!(place(&folder, "a.txt", 5), ("a.txt".to_string(), 0, 1));
    folder.insert("a.txt".to_string(), 3);
    assert_eq!(place(&folder, "a.txt", 5), ("a.txt".to_string(), 3, 1));
    folder.insert("a.txt".to_string(), 5);
    assert_eq!(place(&folder, "a.txt", 5), ("a (1).txt".to_string(), 0, 3));
    folder.insert("a (1).txt".to_string(), 1);
    folder.insert("a (3).txt".to_string(), 1);
    assert_eq!(place(&folder, "a.txt", 5), ("a (2).txt".to_string(), 0, 4));
    folder.insert("bos".to_string(), 0);
    assert_eq!(place(&folder, "bos", 4), ("bos".to_string(), 0, 1));
    assert_eq!(place(&folder, "bos", 0), ("bos (1)".to_string(), 0, 3));
}

#[test]
fn a_name_that_becomes_free_meanwhile_is_used() {
    let p = Placing::new("a".to_string(), 1).answer(Some(1));
    assert_eq!(p.settled(), None);
    assert_eq!(p.current(), "a");
    let p = p.answer(None);
    assert_eq!(p.settled(), Some(0));
    assert_eq!(p.current(), "a");
    assert_eq!(p.size(), 1);
}

#[test]
fn a_full_folder_has_no_place() {
    let mut folder = HashMap::new();
    for n in 0..=LAST_CANDIDATE {
        folder.insert(candidate("x.y", n), 9);
    }
    let (p, questions) = search(&folder, "x.y", 3);
    assert!(p.is_full());
    assert_eq!(p.settled(), None);
    assert_eq!(questions, LAST_CANDIDATE + 2);
    assert!(p.answer(None).is_full());
    assert_eq!(place(&folder, "x.y", 10), ("x.y".to_string(), 9, 1));
    folder.remove("x (9999).y");
    assert_eq!(place(&folder, "x.y", 3).0, "x (9999).y");
}
