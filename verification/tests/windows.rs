//! Finding a browser, starting it, and keeping its windows off the screen.

use webbrowser_plugin::cdp::{VIEWPORT_H, VIEWPORT_W};
use webbrowser_plugin::launch::{
    browser_error, browser_plan, detect_xvfb_helper, find_chrome_executable,
    hide_new_browser_windows, installed_candidates, linux_chrome_launch, missing_browser,
    names_browser, no_activate_style, restore_foreground, ForegroundPlan, LinuxChrome, Platform,
    WindowInfo, XvfbHelper, MAC_CANDIDATES, WINDOWS_CANDIDATES, WS_EX_NOACTIVATE,
};

fn some(p: &str) -> Option<String> {
    Some(p.to_owned())
}

#[test]
fn the_named_browser_wins_then_the_path_then_the_known_places() {
    let path = vec![None, some("/usr/bin/chromium"), some("/usr/bin/chrome")];
    let known = vec![some("/opt/chrome")];
    assert_eq!(find_chrome_executable(some("/my/chrome"), &path, &known), some("/my/chrome"));
    assert_eq!(find_chrome_executable(None, &path, &known), some("/usr/bin/chromium"));
    assert_eq!(find_chrome_executable(None, &vec![None], &known), some("/opt/chrome"));
    assert_eq!(find_chrome_executable(None, &Vec::new(), &Vec::new()), None);
}

#[test]
fn every_system_has_its_known_places() {
    assert!(installed_candidates(Platform::Linux).is_empty());
    assert_eq!(installed_candidates(Platform::Windows), WINDOWS_CANDIDATES.to_vec());
    assert_eq!(installed_candidates(Platform::MacOs), MAC_CANDIDATES.to_vec());
}

#[test]
fn a_missing_browser_is_told_in_the_words_of_the_system() {
    let linux = missing_browser(Platform::Linux, Some("/Volumes/x"));
    assert!(linux.starts_with("Chrome/Chromium not found."), "{linux}");
    let windows = missing_browser(Platform::Windows, None);
    assert!(windows.starts_with("Chrome/Chromium/Edge not found."), "{windows}");
    let mac = missing_browser(Platform::MacOs, Some("/Volumes/x"));
    assert!(mac.starts_with("/Volumes/x is on a mounted disk image"), "{mac}");
}

#[test]
fn the_better_helper_is_used() {
    assert_eq!(detect_xvfb_helper(true, true), Some(XvfbHelper::Run));
    assert_eq!(detect_xvfb_helper(false, true), Some(XvfbHelper::Bare));
    assert_eq!(detect_xvfb_helper(false, false), None);
}

#[test]
fn linux_needs_a_browser_and_prefers_a_virtual_display() {
    assert!(linux_chrome_launch(None, true, true).is_err());
    assert!(matches!(
        linux_chrome_launch(some("/c"), false, true),
        Ok(LinuxChrome::VirtualDisplay(s)) if s.contains("Xvfb :$d")
    ));
    assert!(matches!(
        linux_chrome_launch(some("/c"), false, false),
        Ok(LinuxChrome::Headless(e)) if e == "/c"
    ));
}

#[test]
fn a_window_is_only_opened_where_nobody_sees_it() {
    let plan = browser_plan(Platform::Linux, true);
    assert!(plan.headed && plan.mode == "xvfb");
    let plan = browser_plan(Platform::Linux, false);
    assert!(!plan.headed && plan.mode == "headless");
    assert!(!browser_plan(Platform::MacOs, true).headed);
    let plan = browser_plan(Platform::Windows, false);
    assert!(plan.headed);
    assert!(plan.args.contains(&"--window-position=-10000,-10000"));
    assert_eq!(browser_plan(Platform::MacOs, false).args.len(), 3);
    assert!(VIEWPORT_W > VIEWPORT_H);
}

#[test]
fn a_browser_that_does_not_start_is_named() {
    assert_eq!(
        browser_error(Platform::Linux, "xvfb", "/c", "no"),
        "failed to launch Chrome (xvfb): no"
    );
    assert_eq!(
        browser_error(Platform::MacOs, "headless", "/c", "no"),
        "failed to launch Chrome at /c — is Chrome installed? \
         (set SICOMPASS_CHROME_PATH to override): no"
    );
}

fn window(handle: isize, visible: bool, process: u32, image: Option<&str>) -> WindowInfo {
    WindowInfo { handle, visible, process, image: image.map(str::to_owned) }
}

#[test]
fn only_new_visible_browser_windows_are_moved() {
    let before = vec![1];
    let windows = vec![
        window(1, true, 10, Some(r"C:\Chrome\chrome.exe")),
        window(2, false, 10, Some(r"C:\Chrome\chrome.exe")),
        window(3, true, 0, Some(r"C:\Chrome\chrome.exe")),
        window(4, true, 10, None),
        window(5, true, 10, Some(r"C:\Notes\notes.exe")),
        window(6, true, 10, Some(r"C:\CHROME\CHROME.EXE")),
        window(7, true, 10, Some(r"C:\Edge\msedge.exe")),
    ];
    let mut handled = vec![7];
    let plan = hide_new_browser_windows(&before, &windows, &mut handled);
    assert_eq!(plan.moves, vec![6, 7]);
    assert_eq!(plan.fresh, vec![6], "the other one was dealt with before");
    assert_eq!(handled, vec![7, 6]);
    let plan = hide_new_browser_windows(&before, &windows, &mut handled);
    assert_eq!(plan.moves, vec![6, 7], "a window that came back is moved again");
    assert!(plan.fresh.is_empty());
    assert!(names_browser("/opt/chrome") && !names_browser("/opt/notes"));
}

#[test]
fn a_window_is_kept_from_the_focus_once() {
    assert_eq!(no_activate_style(0x10), Some(0x10 | WS_EX_NOACTIVATE));
    assert_eq!(no_activate_style(0x10 | WS_EX_NOACTIVATE), None);
}

#[test]
fn the_focus_goes_back_where_it_was() {
    assert_eq!(restore_foreground(0, true, 5, 2, 1), ForegroundPlan::Leave);
    assert_eq!(restore_foreground(9, false, 5, 2, 1), ForegroundPlan::Leave);
    assert_eq!(restore_foreground(9, true, 9, 2, 1), ForegroundPlan::Leave);
    assert_eq!(restore_foreground(9, true, 5, 2, 1), ForegroundPlan::Restore { attach: true });
    assert_eq!(restore_foreground(9, true, 5, 1, 1), ForegroundPlan::Restore { attach: false });
    assert_eq!(restore_foreground(9, true, 0, 0, 1), ForegroundPlan::Restore { attach: false });
}
