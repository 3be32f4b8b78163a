use std::path::PathBuf;
use verishare::settings::{
    current_download_dir, load, set_download_dir, AppSettings, SettingsError,
};
use verishare::shell::{
    get_wifi_ssid, menu_action, open_file, send_failure_text, show_in_folder, ssid_from_netsh,
    ssid_from_networksetup, ssid_query, Launch, MenuAction, Platform, SsidError,
};

#[test]
fn the_network_stands_behind_the_heading() {
    assert_eq!(
        ssid_from_networksetup("Current Wi-Fi Network: Ofis Ağı\n"),
        Ok("Ofis Ağı".to_string())
    );
    assert_eq!(
        ssid_from_networksetup("Current Wi-Fi Network: Ofis: 5G\n"),
        Ok("Ofis: 5G".to_string())
    );
    assert_eq!(ssid_from_networksetup("a: b: c "), Ok("b: c".to_string()));
    assert_eq!(ssid_from_networksetup("Current Wi-Fi Network:   \n"), Err(SsidError::Withheld));
    assert_eq!(ssid_from_networksetup("Wi-Fi is off."), Err(SsidError::Withheld));
    assert_eq!(ssid_from_networksetup(""), Err(SsidError::Withheld));
    assert_eq!(ssid_from_networksetup("x:y"), Err(SsidError::Withheld));
}

#[test]
fn the_network_stands_in_the_line_of_its_name() {
    let text = "\r\nName                   : Wi-Fi\r\n    SSID                   : Ev Ağı \r\n    BSSID                  : aa:bb\r\n";
    assert_eq!(ssid_from_netsh(text), Ok("Ev Ağı".to_string()));
    assert_eq!(ssid_from_netsh("SSID : a: b: c\n"), Ok("a".to_string()));
    assert_eq!(ssid_from_netsh("SSID:yok\nSSID 2 : var"), Ok("var".to_string()));
    assert_eq!(ssid_from_netsh("SSID : \u{a0}: x"), Ok("".to_string()));
    assert_eq!(ssid_from_netsh("BSSID : aa\n"), Err(SsidError::NotFound));
    assert_eq!(ssid_from_netsh(""), Err(SsidError::NotFound));
}

#[test]
fn a_name_that_is_not_known_is_explained() {
    assert_eq!(SsidError::Withheld.message(), "Apple Gizlilik Koruması ya da Wi-Fi kapalı");
    assert_eq!(SsidError::NotFound.message(), "WiFi ağı bulunamadı");
    assert_eq!(SsidError::Unsupported.message(), "Bu platform desteklenmiyor");
}

#[test]
fn a_cancelled_transfer_is_no_error() {
    assert_eq!(send_failure_text("İPTAL_EDİLDİ"), "Transfer iptal edildi.");
    assert_eq!(send_failure_text("x İPTAL_EDİLDİ y"), "Transfer iptal edildi.");
    assert_eq!(send_failure_text("ERİŞİM_REDDEDİLDİ"), "Hata: ERİŞİM_REDDEDİLDİ");
    assert_eq!(send_failure_text(""), "Hata: ");
}

#[test]
fn the_menu_quits_and_shows() {
    assert_eq!(menu_action(&"quit".to_string()), MenuAction::Quit);
    assert_eq!(menu_action(&"show".to_string()), MenuAction::Show);
    assert_eq!(menu_action(&"Quit".to_string()), MenuAction::Ignore);
    assert_eq!(menu_action(&"".to_string()), MenuAction::Ignore);
}

fn dir(s: &str) -> PathBuf {
    PathBuf::from(s)
}

#[test]
fn a_kept_folder_is_taken_over_while_it_is_there() {
    let mut current = dir("/indirilenler");
    load(&mut current, None, true);
    assert_eq!(current, dir("/indirilenler"));
    load(&mut current, Some(AppSettings { download_dir: dir("/eski") }), false);
    assert_eq!(current, dir("/indirilenler"));
    load(&mut current, Some(AppSettings { download_dir: dir("/yeni") }), true);
    assert_eq!(current, dir("/yeni"));
    assert_eq!(current_download_dir(&current), dir("/yeni"));
}

#[test]
fn a_chosen_folder_takes_effect_at_once() {
    let mut current = dir("/a");
    let kept = set_download_dir(&mut current, dir("/b"), true, true).unwrap();
    assert_eq!(current, dir("/b"));
    assert_eq!(kept.download_dir, dir("/b"));
    let mut next = dir("/a");
    load(&mut next, Some(kept), true);
    assert_eq!(next, dir("/b"));
}

#[test]
fn a_folder_that_cannot_be_chosen_is_refused() {
    let mut current = dir("/a");
    assert_eq!(
        set_download_dir(&mut current, dir("/f"), false, true).unwrap_err(),
        SettingsError::NotAFolder
    );
    assert_eq!(current, dir("/a"));
    assert_eq!(
        set_download_dir(&mut current, dir("/b"), true, false).unwrap_err(),
        SettingsError::NoSettingsFile
    );
    assert_eq!(current, dir("/b"));
    assert_eq!(SettingsError::NotAFolder.message(), "Seçilen yol bir klasör değil.");
    assert_eq!(SettingsError::NoSettingsFile.message(), "Ayar dosyası konumu bulunamadı.");
}

fn line(launch: Option<Launch>) -> Option<String> {
    launch.map(|l| format!("{} {}", l.program, l.args.join(" ")))
}

#[test]
fn files_are_opened_by_the_system() {
    let p = "/tmp/a b";
    assert_eq!(line(show_in_folder(Platform::Windows, p)).as_deref(), Some("explorer /select, /tmp/a b"));
    assert_eq!(line(show_in_folder(Platform::MacOs, p)).as_deref(), Some("open -R /tmp/a b"));
    assert_eq!(line(show_in_folder(Platform::Linux, p)).as_deref(), Some("xdg-open /tmp/a b"));
    assert_eq!(line(show_in_folder(Platform::Other, p)), None);
    assert_eq!(line(open_file(Platform::Windows, p)).as_deref(), Some("explorer /tmp/a b"));
    assert_eq!(line(open_file(Platform::MacOs, p)).as_deref(), Some("open /tmp/a b"));
    assert_eq!(line(open_file(Platform::Linux, p)).as_deref(), Some("xdg-open /tmp/a b"));
    assert_eq!(line(open_file(Platform::Other, p)), None);
}

#[test]
fn each_system_is_asked_in_its_own_way() {
    assert_eq!(
        line(ssid_query(Platform::MacOs)).as_deref(),
        Some("networksetup -getairportnetwork en0")
    );
    assert_eq!(line(ssid_query(Platform::Windows)).as_deref(), Some("netsh wlan show interfaces"));
    assert_eq!(line(ssid_query(Platform::Linux)), None);
    assert_eq!(get_wifi_ssid(Platform::MacOs, "x: ağ"), Ok("ağ".to_string()));
    assert_eq!(get_wifi_ssid(Platform::Windows, "SSID : ağ"), Ok("ağ".to_string()));
    assert_eq!(get_wifi_ssid(Platform::MacOs, "SSID"), Err(SsidError::Withheld));
    assert_eq!(get_wifi_ssid(Platform::Windows, "x: ağ"), Err(SsidError::NotFound));
    assert_eq!(get_wifi_ssid(Platform::Linux, "x: ağ"), Err(SsidError::Unsupported));
}
