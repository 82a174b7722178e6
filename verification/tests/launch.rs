//! Starting Chrome where nobody sees it.

use webbrowser_plugin::cdp::{
    chrome_args, chrome_env, xvfb_args, CHROME_NAMES, VIEWPORT_H, VIEWPORT_W, XVFB,
};
use webbrowser_plugin::launch::{
    chrome_missing_message, linux_chrome_launch_with, offscreen_chrome_env, xvfb_wrapper_script,
    LinuxChrome, XvfbHelper,
};

#[test]
fn chrome_talks_over_its_pipe_with_no_port() {
    let args = chrome_args(true, "profile");
    assert!(args.contains(&"--remote-debugging-pipe".to_owned()));
    assert!(
        !args
            .iter()
            .any(|a| a.starts_with("--remote-debugging-port"))
    );
    assert!(args.contains(&"--user-data-dir=profile".to_owned()));
    assert!(args.contains(&"--headless=new".to_owned()));
    let headed = chrome_args(false, "profile");
    assert!(!headed.iter().any(|a| a.starts_with("--headless")));
    assert!(headed.contains(&"--ozone-platform=x11".to_owned()));
}

#[test]
fn no_display_means_headless_not_a_visible_window() {
    let (env, unset) = chrome_env(None);
    assert!(!env.iter().any(|(k, _)| k == "DISPLAY"));
    assert!(unset.is_empty());
    assert!(chrome_args(true, "p").contains(&"--headless=new".to_owned()));
}

#[test]
fn a_virtual_display_runs_chrome_headed_on_x11() {
    let (env, unset) = chrome_env(Some(7));
    assert!(env.contains(&("DISPLAY".to_owned(), ":7".to_owned())));
    assert_eq!(unset, ["WAYLAND_DISPLAY"]);
    let args = chrome_args(false, "p");
    assert!(!args.iter().any(|a| a.starts_with("--headless")));
    assert!(args.contains(&"--ozone-platform=x11".to_owned()));
}

#[test]
fn the_virtual_screen_is_desktop_sized() {
    assert!(xvfb_args().contains(&format!("{VIEWPORT_W}x{VIEWPORT_H}x24")));
    assert!(
        chrome_args(false, "p").contains(&format!("--window-size={VIEWPORT_W},{VIEWPORT_H}"))
    );
    let args = xvfb_args();
    assert_eq!(&args[..2], ["-displayfd", "1"]);
    assert!(args.contains(&"-terminate".to_owned()));
}

#[test]
fn every_chrome_name_is_a_name_not_a_path() {
    for n in CHROME_NAMES.iter().chain([&XVFB]) {
        assert!(!n.contains('/') && !n.contains('\\'), "{n}");
    }
}

#[test]
fn cdp_offscreen_chrome_cannot_reach_the_accessibility_bus() {
    for display in [None, Some(3)] {
        let (env, _) = chrome_env(display);
        let (key, addr) = &env[0];
        assert_eq!(key, "AT_SPI_BUS_ADDRESS");
        let path = addr
            .strip_prefix("unix:path=")
            .expect("must be a unix socket address so the connection simply fails");
        assert!(
            !std::path::Path::new(path).exists(),
            "{path} exists, so Chrome could reach a real bus through it"
        );
        assert!(path.starts_with('/'), "{path} must be absolute");
    }
}

#[test]
fn both_xvfb_paths_use_the_same_desktop_screen_size() {
    let screen = format!("-screen 0 {VIEWPORT_W}x{VIEWPORT_H}x24");
    for helper in [XvfbHelper::Run, XvfbHelper::Bare] {
        let script = xvfb_wrapper_script("/usr/bin/google-chrome", helper);
        assert!(
            script.contains(&screen),
            "a virtual screen smaller than the layout viewport makes every \
             responsive site serve its phone layout: {script}"
        );
    }
    assert!(VIEWPORT_W >= 1200, "must clear the usual xl breakpoint");
}

#[test]
fn xvfb_run_script_hands_chrome_a_virtual_display() {
    let script = xvfb_wrapper_script("/usr/bin/google-chrome", XvfbHelper::Run);
    assert!(script.contains("/usr/bin/google-chrome"));
    assert!(
        script.contains(&format!("-screen 0 {VIEWPORT_W}x{VIEWPORT_H}x24")),
        "xvfb-run must be given a desktop screen size: {script}"
    );
    assert!(script.contains("unset WAYLAND_DISPLAY"));
    assert!(script.contains("--ozone-platform=x11"));
    assert!(
        script.trim_end().ends_with("1>&2"),
        "xvfb-run's stdout must be folded into stderr, where chromiumoxide reads: {script}"
    );
}

#[test]
fn bare_xvfb_script_starts_and_tears_down_its_own_server() {
    let script = xvfb_wrapper_script("/usr/bin/google-chrome", XvfbHelper::Bare);
    assert!(script.contains("Xvfb :$d"), "must start its own X server");
    assert!(
        script.contains("DISPLAY=:$d /usr/bin/google-chrome"),
        "Chrome must run against that server"
    );
    assert!(
        script.contains("trap 'kill $cp $xp 2>/dev/null' EXIT HUP INT TERM"),
        "both processes must be killed on exit"
    );
}

#[test]
fn lib_offscreen_chrome_cannot_reach_the_accessibility_bus() {
    let env = offscreen_chrome_env();
    let (key, addr) = env[0];
    assert_eq!(key, "AT_SPI_BUS_ADDRESS");

    let path = addr
        .strip_prefix("unix:path=")
        .expect("must be a unix socket address so the connection simply fails");
    assert!(
        !std::path::Path::new(path).exists(),
        "{path} exists, so Chrome could reach a real bus through it"
    );
    assert!(path.starts_with('/'), "{path} must be absolute");
}

#[test]
fn no_xvfb_falls_back_to_headless_not_a_visible_window() {
    let chrome = "/usr/bin/google-chrome";
    let launch = linux_chrome_launch_with(None, chrome);
    match launch {
        LinuxChrome::Headless(exe) => assert_eq!(exe, chrome),
        LinuxChrome::VirtualDisplay(_) => panic!("no Xvfb present, cannot use one"),
    }
}

#[test]
fn xvfb_present_runs_headed_behind_a_wrapper() {
    for helper in [XvfbHelper::Run, XvfbHelper::Bare] {
        let LinuxChrome::VirtualDisplay(script) =
            linux_chrome_launch_with(Some(helper), "/usr/bin/chromium")
        else {
            panic!("a helper is present, so Chrome must run on a virtual display");
        };
        assert!(script.starts_with("#!/bin/sh"), "wrapper must be a shell script");
        assert!(script.contains("/usr/bin/chromium"), "wrapper must run Chrome");
    }
}

#[test]
fn a_browser_still_on_its_disk_image_is_named_in_the_error() {
    let dmg = "/Volumes/Google Chrome/Google Chrome.app";
    let msg = chrome_missing_message(Some(dmg));
    assert!(msg.contains(dmg), "name the bundle we found: {msg}");
    assert!(
        msg.contains("drag it") && msg.contains("Applications"),
        "and say how to install it: {msg}"
    );
    let msg = chrome_missing_message(None);
    assert!(
        msg.contains("SICOMPASS_CHROME_PATH"),
        "otherwise fall back to the override hint: {msg}"
    );
}
