//! Starting a browser that is never seen: which program, on what display, and
//! what to do about its windows.

use crate::cdp;
use crate::cdp::{viewport_text, NO_AT_SPI_BUS};
use crate::outside;
use crate::text;
use crate::text::{chars_of, holds};
use vstd::prelude::*;

verus! {

// ---------------------------------------------------------------------------
// A virtual display
// ---------------------------------------------------------------------------

/// Which helper for a virtual display a machine has.
#[derive(Debug, Clone, Copy, PartialEq, Eq, Structural)]
pub enum XvfbHelper {
    /// `xvfb-run`, which finds a display and cleans up.
    Run,
    /// `Xvfb` alone.
    Bare,
}

/// How Chrome is started on Linux.
#[derive(Debug, PartialEq, Eq)]
pub enum LinuxChrome {
    /// A script that runs a headed Chrome on a virtual display. A headed Chrome
    /// passes where a headless one is turned away.
    VirtualDisplay(String),
    /// The program itself, to be run headless: the one way left to keep it off
    /// the screen.
    Headless(String),
}

pub const RUN_OPEN: &'static str = "#!/bin/sh\nunset WAYLAND_DISPLAY\nexec xvfb-run -a -s \"-screen 0 ";

pub const RUN_DEPTH: &'static str = "x24\" ";

pub const RUN_CLOSE: &'static str = " --ozone-platform=x11 \"$@\" 1>&2\n";

pub const BARE_OPEN: &'static str = "#!/bin/sh\nunset WAYLAND_DISPLAY\nd=99\nwhile [ -e /tmp/.X${d}-lock ] || [ -e /tmp/.X11-unix/X${d} ]; do d=$((d+1)); done\nXvfb :$d -screen 0 ";

pub const BARE_DEPTH: &'static str = "x24 -nolisten tcp >/dev/null 2>&1 &\nxp=$!\ni=0\nwhile [ ! -e /tmp/.X11-unix/X${d} ]; do i=$((i+1)); [ $i -ge 100 ] && break; sleep 0.05; done\nDISPLAY=:$d ";

pub const BARE_CLOSE: &'static str = " --ozone-platform=x11 \"$@\" &\ncp=$!\ntrap 'kill $cp $xp 2>/dev/null' EXIT HUP INT TERM\nwait $cp\n";

/// The script that starts Chrome on a virtual display.
pub open spec fn wrapper_script(chrome: Seq<char>, helper: XvfbHelper) -> Seq<char> {
    match helper {
        XvfbHelper::Run => RUN_OPEN@ + cdp::viewport("x"@) + RUN_DEPTH@ + chrome + RUN_CLOSE@,
        XvfbHelper::Bare => BARE_OPEN@ + cdp::viewport("x"@) + BARE_DEPTH@ + chrome + BARE_CLOSE@,
    }
}

/// Write the script that starts Chrome on a virtual display of the size of a
/// desktop, and with its output where its caller listens.
pub fn xvfb_wrapper_script(chrome: &str, helper: XvfbHelper) -> (r: String)
    ensures
        r@ == wrapper_script(chrome@, helper),
{
    let size = viewport_text("x");
    match helper {
        XvfbHelper::Run => {
            let mut r = RUN_OPEN.to_owned();
            r.append(size.as_str());
            r.append(RUN_DEPTH);
            r.append(chrome);
            r.append(RUN_CLOSE);
            r
        },
        XvfbHelper::Bare => {
            let mut r = BARE_OPEN.to_owned();
            r.append(size.as_str());
            r.append(BARE_DEPTH);
            r.append(chrome);
            r.append(BARE_CLOSE);
            r
        },
    }
}

/// Which helper to use, of what the machine has.
pub fn detect_xvfb_helper(has_xvfb_run: bool, has_xvfb: bool) -> (r: Option<XvfbHelper>)
    ensures
        r == if has_xvfb_run {
            Some(XvfbHelper::Run)
        } else if has_xvfb {
            Some(XvfbHelper::Bare)
        } else {
            None
        },
{
    if has_xvfb_run {
        Some(XvfbHelper::Run)
    } else if has_xvfb {
        Some(XvfbHelper::Bare)
    } else {
        None
    }
}

/// Decide how Chrome is started on Linux, so that it is never on the user's
/// screen: on a virtual display where there is a helper for one, and headless
/// where there is none.
pub fn linux_chrome_launch_with(helper: Option<XvfbHelper>, chrome: &str) -> (r: LinuxChrome)
    ensures
        match helper {
            Some(h) => r matches LinuxChrome::VirtualDisplay(script) && script@ == wrapper_script(
                chrome@,
                h,
            ),
            None => r matches LinuxChrome::Headless(exe) && exe@ == chrome@,
        },
{
    match helper {
        Some(h) => LinuxChrome::VirtualDisplay(xvfb_wrapper_script(chrome, h)),
        None => LinuxChrome::Headless(chrome.to_owned()),
    }
}

/// Decide how Chrome is started on Linux from what was found on the machine.
pub fn linux_chrome_launch(
    chrome: Option<String>,
    has_xvfb_run: bool,
    has_xvfb: bool,
) -> (r: Result<LinuxChrome, String>)
    ensures
        match chrome {
            None => r matches Err(e) && e@ == CHROME_NOT_FOUND@,
            Some(exe) => {
                &&& r matches Ok(launch)
                &&& if has_xvfb_run {
                    launch matches LinuxChrome::VirtualDisplay(s) && s@ == wrapper_script(
                        exe@,
                        XvfbHelper::Run,
                    )
                } else if has_xvfb {
                    launch matches LinuxChrome::VirtualDisplay(s) && s@ == wrapper_script(
                        exe@,
                        XvfbHelper::Bare,
                    )
                } else {
                    launch matches LinuxChrome::Headless(s) && s@ == exe@
                }
            },
        },
{
    match chrome {
        None => Err(chrome_missing_message(None)),
        Some(exe) => Ok(
            linux_chrome_launch_with(detect_xvfb_helper(has_xvfb_run, has_xvfb), exe.as_str()),
        ),
    }
}

/// What a Chrome off the screen has in its environment: an accessibility bus
/// that cannot be reached.
pub fn offscreen_chrome_env() -> (r: [(&'static str, &'static str); 1])
    ensures
        r@[0].0@ == "AT_SPI_BUS_ADDRESS"@,
        r@[0].1@ == NO_AT_SPI_BUS@,
{
    [("AT_SPI_BUS_ADDRESS", NO_AT_SPI_BUS)]
}

// ---------------------------------------------------------------------------
// Finding a browser
// ---------------------------------------------------------------------------

/// The system a browser is looked for on.
#[derive(Debug, Clone, Copy, PartialEq, Eq, Structural)]
pub enum Platform {
    Linux,
    Windows,
    MacOs,
}

/// The variable that names the browser to use.
pub const CHROME_PATH_VAR: &'static str = "SICOMPASS_CHROME_PATH";

/// The names a browser is looked up by.
pub const PATH_CANDIDATES: [&'static str; 6] = [
    "google-chrome",
    "google-chrome-stable",
    "google-chrome-beta",
    "chromium",
    "chromium-browser",
    "chrome",
];

/// Where a browser is installed on Windows: a variable that names a folder,
/// and a path in it.
pub const WINDOWS_CANDIDATES: [(&'static str, &'static str); 7] = [
    ("ProgramFiles", r"Google\Chrome\Application\chrome.exe"),
    ("ProgramFiles", r"Chromium\Application\chrome.exe"),
    ("ProgramFiles", r"Microsoft\Edge\Application\msedge.exe"),
    ("ProgramFiles(x86)", r"Google\Chrome\Application\chrome.exe"),
    ("ProgramFiles(x86)", r"Chromium\Application\chrome.exe"),
    ("ProgramFiles(x86)", r"Microsoft\Edge\Application\msedge.exe"),
    ("LocalAppData", r"Google\Chrome\Application\chrome.exe"),
];

/// Where a browser is installed on macOS; the last one in the user's folder.
pub const MAC_CANDIDATES: [(&'static str, &'static str); 5] = [
    ("", "/Applications/Google Chrome.app/Contents/MacOS/Google Chrome"),
    ("", "/Applications/Google Chrome Canary.app/Contents/MacOS/Google Chrome Canary"),
    ("", "/Applications/Chromium.app/Contents/MacOS/Chromium"),
    ("", "/Applications/Microsoft Edge.app/Contents/MacOS/Microsoft Edge"),
    ("HOME", "Applications/Google Chrome.app/Contents/MacOS/Google Chrome"),
];

/// The bundles looked for on a mounted volume.
pub const MAC_BROWSER_BUNDLES: [&'static str; 4] = [
    "Google Chrome.app",
    "Google Chrome Canary.app",
    "Chromium.app",
    "Microsoft Edge.app",
];

/// Where a browser is installed on this system, in the order to look.
pub open spec fn install_places(platform: Platform) -> Seq<(&'static str, &'static str)> {
    match platform {
        Platform::Linux => Seq::empty(),
        Platform::Windows => WINDOWS_CANDIDATES@,
        Platform::MacOs => MAC_CANDIDATES@,
    }
}

/// Where a browser is installed on this system, in the order to look: each a
/// variable that names a folder, or nothing, and a path.
pub fn installed_candidates(platform: Platform) -> (r: Vec<(&'static str, &'static str)>)
    ensures
        r@ == install_places(platform),
{
    let mut r: Vec<(&'static str, &'static str)> = Vec::new();
    match platform {
        Platform::Linux => {},
        Platform::Windows => {
            let mut i: usize = 0;
            while i < WINDOWS_CANDIDATES.len()
                invariant
                    i <= WINDOWS_CANDIDATES@.len(),
                    r@ == WINDOWS_CANDIDATES@.take(i as int),
                decreases WINDOWS_CANDIDATES@.len() - i,
            {
                r.push(WINDOWS_CANDIDATES[i]);
                i = i + 1;
                assert(r@ =~= WINDOWS_CANDIDATES@.take(i as int));
            }
        },
        Platform::MacOs => {
            let mut i: usize = 0;
            while i < MAC_CANDIDATES.len()
                invariant
                    i <= MAC_CANDIDATES@.len(),
                    r@ == MAC_CANDIDATES@.take(i as int),
                decreases MAC_CANDIDATES@.len() - i,
            {
                r.push(MAC_CANDIDATES[i]);
                i = i + 1;
                assert(r@ =~= MAC_CANDIDATES@.take(i as int));
            }
        },
    }
    assert(r@ =~= install_places(platform));
    r
}

/// The first of the places where something was found, from `from` on.
pub open spec fn first_found(v: Seq<Option<String>>, from: int) -> Option<Seq<char>>
    decreases v.len() - from,
{
    if from < 0 || from >= v.len() {
        None
    } else {
        match v[from] {
            Some(p) => Some(p@),
            None => first_found(v, from + 1),
        }
    }
}

fn find_first(v: &Vec<Option<String>>) -> (r: Option<String>)
    ensures
        text::maybe(r) == first_found(v@, 0),
{
    let mut i: usize = 0;
    while i < v.len()
        invariant
            i <= v.len(),
            first_found(v@, 0) == first_found(v@, i as int),
        decreases v.len() - i,
    {
        if let Some(p) = &v[i] {
            return Some(p.clone());
        }
        i = i + 1;
    }
    None
}

/// Choose the browser to use: the one the user named, where it is there; else
/// the first that was found by name; else the first that is installed in a
/// well-known place.
pub fn find_chrome_executable(
    named: Option<String>,
    by_name: &Vec<Option<String>>,
    installed: &Vec<Option<String>>,
) -> (r: Option<String>)
    ensures
        text::maybe(r) == match named {
            Some(p) => Some(p@),
            None => match first_found(by_name@, 0) {
                Some(p) => Some(p),
                None => first_found(installed@, 0),
            },
        },
{
    if let Some(p) = named {
        return Some(p);
    }
    if let Some(p) = find_first(by_name) {
        return Some(p);
    }
    find_first(installed)
}

pub const CHROME_NOT_FOUND: &'static str =
    "Chrome/Chromium not found. Install Chrome or set SICOMPASS_CHROME_PATH to the browser executable.";

pub const ON_AN_IMAGE: &'static str =
    " is on a mounted disk image, not installed. In Finder, drag it from the disk image window into Applications, eject the image, then try again.";

/// Why no browser could be found, in terms of what the user should do next.
/// `image` is a browser that lies on a mounted disk image.
pub fn chrome_missing_message(image: Option<&str>) -> (r: String)
    ensures
        r@ == match image {
            Some(p) => p@ + ON_AN_IMAGE@,
            None => CHROME_NOT_FOUND@,
        },
{
    match image {
        Some(p) => {
            let mut r = p.to_owned();
            r.append(ON_AN_IMAGE);
            r
        },
        None => CHROME_NOT_FOUND.to_owned(),
    }
}

pub const WINDOWS_CHROME_NOT_FOUND: &'static str =
    "Chrome/Chromium/Edge not found. Install Chrome or set SICOMPASS_CHROME_PATH to the browser executable.";

/// What to say on this system where no browser could be found.
pub fn missing_browser(platform: Platform, image: Option<&str>) -> (r: String)
    ensures
        r@ == match image {
            _ if platform == Platform::Windows => WINDOWS_CHROME_NOT_FOUND@,
            Some(p) if platform == Platform::MacOs => p@ + ON_AN_IMAGE@,
            _ => CHROME_NOT_FOUND@,
        },
{
    match platform {
        Platform::Windows => WINDOWS_CHROME_NOT_FOUND.to_owned(),
        Platform::MacOs => chrome_missing_message(image),
        Platform::Linux => chrome_missing_message(None),
    }
}

// ---------------------------------------------------------------------------
// Launching it
// ---------------------------------------------------------------------------

/// The flags of every browser.
pub const BROWSER_FLAGS: [&'static str; 3] = [
    "--disable-blink-features=AutomationControlled",
    "--no-first-run",
    "--no-default-browser-check",
];

/// The flags of a browser whose window is parked off the screen: it must not
/// notice that nobody sees it.
pub const OFFSCREEN_FLAGS: [&'static str; 4] = [
    "--window-position=-10000,-10000",
    "--disable-backgrounding-occluded-windows",
    "--disable-renderer-backgrounding",
    "--disable-background-timer-throttling",
];

/// The files that hold cookies in a profile.
pub const COOKIE_FILES: [&'static str; 6] = [
    "Default/Cookies",
    "Default/Cookies-journal",
    "Default/Cookies-wal",
    "Cookies",
    "Cookies-journal",
    "Cookies-wal",
];

/// How a browser is started.
#[derive(Debug)]
pub struct BrowserPlan {
    /// With a window, or headless.
    pub headed: bool,
    pub args: Vec<&'static str>,
    /// What to call this way of starting in an error.
    pub mode: &'static str,
}

/// Plan how a browser is started. On Linux it has a window where there is a
/// virtual display for it; on Windows its window is parked off the screen; on
/// macOS there is neither, so it runs headless.
pub fn browser_plan(platform: Platform, on_virtual_display: bool) -> (r: BrowserPlan)
    ensures
        r.headed == (platform == Platform::Windows || (platform == Platform::Linux
            && on_virtual_display)),
        r.args@ == if platform == Platform::Windows {
            BROWSER_FLAGS@ + OFFSCREEN_FLAGS@
        } else {
            BROWSER_FLAGS@
        },
        r.mode@ == if platform == Platform::Linux && on_virtual_display {
            "xvfb"@
        } else {
            "headless"@
        },
{
    let mut args: Vec<&'static str> = Vec::new();
    args.push(BROWSER_FLAGS[0]);
    args.push(BROWSER_FLAGS[1]);
    args.push(BROWSER_FLAGS[2]);
    let windows = platform == Platform::Windows;
    if windows {
        args.push(OFFSCREEN_FLAGS[0]);
        args.push(OFFSCREEN_FLAGS[1]);
        args.push(OFFSCREEN_FLAGS[2]);
        args.push(OFFSCREEN_FLAGS[3]);
        assert(args@ =~= BROWSER_FLAGS@ + OFFSCREEN_FLAGS@);
    } else {
        assert(args@ =~= BROWSER_FLAGS@);
    }
    let displayed = platform == Platform::Linux && on_virtual_display;
    BrowserPlan {
        headed: windows || displayed,
        args,
        mode: if displayed {
            "xvfb"
        } else {
            "headless"
        },
    }
}

/// Say that a browser did not start.
pub fn browser_error(platform: Platform, mode: &str, exe: &str, e: &str) -> (r: String)
    ensures
        r@ == if platform == Platform::Linux {
            "failed to launch Chrome ("@ + mode@ + "): "@ + e@
        } else {
            "failed to launch Chrome at "@ + exe@
                + " — is Chrome installed? (set SICOMPASS_CHROME_PATH to override): "@ + e@
        },
{
    if platform == Platform::Linux {
        let mut r = "failed to launch Chrome (".to_owned();
        r.append(mode);
        r.append("): ");
        r.append(e);
        r
    } else {
        let mut r = "failed to launch Chrome at ".to_owned();
        r.append(exe);
        r.append(" — is Chrome installed? (set SICOMPASS_CHROME_PATH to override): ");
        r.append(e);
        r
    }
}

// ---------------------------------------------------------------------------
// Windows on the screen
// ---------------------------------------------------------------------------

/// A window of the system.
#[derive(Debug)]
pub struct WindowInfo {
    pub handle: isize,
    pub visible: bool,
    /// The process it belongs to; zero where that is not known.
    pub process: u32,
    /// The program of that process, where that is known.
    pub image: Option<String>,
}

/// The program is a browser, by its path in lower case.
pub open spec fn is_browser(path: Seq<char>) -> bool {
    text::occurs(path, "chrome"@) || text::occurs(path, "msedge"@)
}

/// The window is a visible one of a browser, and was not there before.
pub open spec fn is_new_browser_window(w: WindowInfo, before: Seq<isize>) -> bool {
    &&& !before.contains(w.handle)
    &&& w.visible
    &&& w.process != 0
    &&& w.image matches Some(p) && is_browser(outside::lowercase(p@))
}

/// The windows to move off the screen, in the order of the system.
pub open spec fn to_move(windows: Seq<WindowInfo>, before: Seq<isize>) -> Seq<isize>
    decreases windows.len(),
{
    if windows.len() == 0 {
        seq![]
    } else {
        let rest = to_move(windows.drop_last(), before);
        if is_new_browser_window(windows.last(), before) {
            rest.push(windows.last().handle)
        } else {
            rest
        }
    }
}

/// `handled` with the windows that are moved and were not handled yet.
pub open spec fn handled_after(handled: Seq<isize>, moves: Seq<isize>) -> Seq<isize>
    decreases moves.len(),
{
    if moves.len() == 0 {
        handled
    } else {
        let rest = handled_after(handled, moves.drop_last());
        if rest.contains(moves.last()) {
            rest
        } else {
            rest.push(moves.last())
        }
    }
}

fn contains_handle(v: &Vec<isize>, h: isize) -> (r: bool)
    ensures
        r == v@.contains(h),
{
    let mut i: usize = 0;
    while i < v.len()
        invariant
            i <= v.len(),
            forall|j: int| 0 <= j < i ==> v@[j] != h,
        decreases v.len() - i,
    {
        if v[i] == h {
            assert(v@[i as int] == h);
            return true;
        }
        i = i + 1;
    }
    false
}

/// Whether a path in lower case is that of a browser.
pub fn names_browser(lower: &str) -> (r: bool)
    ensures
        r == is_browser(lower@),
{
    let s = chars_of(lower);
    holds(s.as_slice(), chars_of("chrome").as_slice()) || holds(
        s.as_slice(),
        chars_of("msedge").as_slice(),
    )
}

/// The windows to move off the screen now, and those among them that are seen
/// for the first time: these are kept from taking the focus, and where there
/// is one, the focus goes back to where it was.
#[derive(Debug)]
pub struct WindowPlan {
    pub moves: Vec<isize>,
    pub fresh: Vec<isize>,
}

/// Plan what to do about the windows of a browser. `handled` remembers the
/// windows that were dealt with before.
pub fn hide_new_browser_windows(
    before: &Vec<isize>,
    windows: &Vec<WindowInfo>,
    handled: &mut Vec<isize>,
) -> (r: WindowPlan)
    ensures
        r.moves@ == to_move(windows@, before@),
        final(handled)@ == handled_after(old(handled)@, r.moves@),
        final(handled)@ == old(handled)@ + r.fresh@,
{
    let mut moves: Vec<isize> = Vec::new();
    let mut fresh: Vec<isize> = Vec::new();
    let ghost known = handled@;
    let mut i: usize = 0;
    assert(known + fresh@ =~= known);
    while i < windows.len()
        invariant
            i <= windows.len(),
            moves@ == to_move(windows@.take(i as int), before@),
            handled@ == handled_after(known, moves@),
            handled@ == known + fresh@,
        decreases windows.len() - i,
    {
        assert(windows@.take(i + 1).drop_last() =~= windows@.take(i as int));
        let w = &windows[i];
        if !contains_handle(before, w.handle) && w.visible && w.process != 0 {
            if let Some(p) = &w.image {
                if names_browser(p.to_lowercase().as_str()) {
                    let ghost moved = moves@;
                    moves.push(w.handle);
                    assert(moves@.drop_last() =~= moved);
                    if !contains_handle(handled, w.handle) {
                        let ghost seen = fresh@;
                        handled.push(w.handle);
                        fresh.push(w.handle);
                        assert(known + fresh@ =~= (known + seen).push(w.handle));
                    }
                }
            }
        }
        i = i + 1;
    }
    assert(windows@.take(windows@.len() as int) =~= windows@);
    WindowPlan { moves, fresh }
}

/// The style of a window that never takes the focus.
pub const WS_EX_NOACTIVATE: isize = 0x0800_0000;

/// The style a window needs to never take the focus, where it lacks that.
pub fn no_activate_style(style: isize) -> (r: Option<isize>)
    ensures
        r == if style & WS_EX_NOACTIVATE == 0 {
            Some(style | WS_EX_NOACTIVATE)
        } else {
            None
        },
{
    if style & WS_EX_NOACTIVATE == 0 {
        Some(style | WS_EX_NOACTIVATE)
    } else {
        None
    }
}

/// What to do to bring a window back to the front.
#[derive(Debug, Clone, Copy, PartialEq, Eq, Structural)]
pub enum ForegroundPlan {
    /// Nothing: there is no such window, or it is in front already.
    Leave,
    /// Bring it to the front, joined to the input of the thread in front where
    /// `attach` is set.
    Restore { attach: bool },
}

/// Decide how a window is brought back to the front. `alive` says that it is
/// still there; `front` is the window in front now, zero for none, and
/// `front_thread` its thread.
pub fn restore_foreground(
    window: isize,
    alive: bool,
    front: isize,
    front_thread: u32,
    own_thread: u32,
) -> (r: ForegroundPlan)
    ensures
        r == if window == 0 || !alive || front == window {
            ForegroundPlan::Leave
        } else {
            ForegroundPlan::Restore {
                attach: front != 0 && front_thread != 0 && front_thread != own_thread,
            }
        },
{
    if window == 0 || !alive || front == window {
        ForegroundPlan::Leave
    } else {
        ForegroundPlan::Restore {
            attach: front != 0 && front_thread != 0 && front_thread != own_thread,
        }
    }
}

// ---------------------------------------------------------------------------
// Laws
// ---------------------------------------------------------------------------

/// Of the places that were looked at, the first where something was found is
/// taken, and something is taken wherever something was found.
pub proof fn law_the_first_that_was_found_is_taken(v: Seq<Option<String>>, from: int)
    requires
        0 <= from,
    ensures
        match first_found(v, from) {
            Some(p) => exists|i: int|
                from <= i < v.len() && (#[trigger] v[i] matches Some(q) && q@ == p) && forall|j: int|
                    from <= j < i ==> (#[trigger] v[j]) is None,
            None => forall|i: int| from <= i < v.len() ==> (#[trigger] v[i]) is None,
        },
    decreases v.len() - from,
{
    if from < v.len() {
        if v[from] is None {
            law_the_first_that_was_found_is_taken(v, from + 1);
        }
    }
}

/// The script that starts a browser on a virtual display starts the one it was
/// given, with what the caller gives it, on a screen of the size of a desktop.
pub proof fn law_the_script_starts_that_browser(chrome: Seq<char>, helper: XvfbHelper)
    ensures
        text::occurs(wrapper_script(chrome, helper), " "@ + chrome + " --ozone-platform=x11 \"$@\""@),
        text::occurs(
            wrapper_script(chrome, helper),
            "-screen 0 "@ + text::decimal(1920) + "x"@ + text::decimal(1080) + "x24"@,
        ),
        text::begins(wrapper_script(chrome, helper), "#!/bin/sh\nunset WAYLAND_DISPLAY\n"@),
{
    reveal_strlit("#!/bin/sh\nunset WAYLAND_DISPLAY\nexec xvfb-run -a -s \"-screen 0 ");
    reveal_strlit("x24\" ");
    reveal_strlit(" --ozone-platform=x11 \"$@\" 1>&2\n");
    reveal_strlit("#!/bin/sh\nunset WAYLAND_DISPLAY\nd=99\nwhile [ -e /tmp/.X${d}-lock ] || [ -e /tmp/.X11-unix/X${d} ]; do d=$((d+1)); done\nXvfb :$d -screen 0 ");
    reveal_strlit("x24 -nolisten tcp >/dev/null 2>&1 &\nxp=$!\ni=0\nwhile [ ! -e /tmp/.X11-unix/X${d} ]; do i=$((i+1)); [ $i -ge 100 ] && break; sleep 0.05; done\nDISPLAY=:$d ");
    reveal_strlit(" --ozone-platform=x11 \"$@\" &\ncp=$!\ntrap 'kill $cp $xp 2>/dev/null' EXIT HUP INT TERM\nwait $cp\n");
    reveal_strlit(" ");
    reveal_strlit("-screen 0 ");
    reveal_strlit("x24");
    reveal_strlit(" --ozone-platform=x11 \"$@\"");
    reveal_strlit("#!/bin/sh\nunset WAYLAND_DISPLAY\n");
    let (open, depth, close) = match helper {
        XvfbHelper::Run => (RUN_OPEN@, RUN_DEPTH@, RUN_CLOSE@),
        XvfbHelper::Bare => (BARE_OPEN@, BARE_DEPTH@, BARE_CLOSE@),
    };
    let flag = " --ozone-platform=x11 \"$@\""@;
    assert(depth.skip(depth.len() - 1) =~= " "@);
    assert(close.take(flag.len() as int) =~= flag);
    assert(open.skip(open.len() - 10) =~= "-screen 0 "@);
    assert(depth.take(3) =~= "x24"@);
    assert(open.subrange(0, 32) =~= "#!/bin/sh\nunset WAYLAND_DISPLAY\n"@);
    lemma_script_pieces(open, cdp::viewport("x"@), depth, chrome, close, flag);
    assert("-screen 0 "@ + cdp::viewport("x"@) + "x24"@ =~= "-screen 0 "@ + text::decimal(1920)
        + "x"@ + text::decimal(1080) + "x24"@);
}

proof fn lemma_script_pieces(
    open: Seq<char>,
    size: Seq<char>,
    depth: Seq<char>,
    chrome: Seq<char>,
    close: Seq<char>,
    flag: Seq<char>,
)
    requires
        open.len() >= 32,
        depth.len() >= 3,
        depth.skip(depth.len() - 1) == " "@,
        close.len() >= flag.len(),
        close.take(flag.len() as int) == flag,
        open.skip(open.len() - 10) == "-screen 0 "@,
        depth.take(3) == "x24"@,
    ensures
        ({
            let s = open + size + depth + chrome + close;
            &&& text::occurs(s, " "@ + chrome + flag)
            &&& text::occurs(s, "-screen 0 "@ + size + "x24"@)
            &&& text::begins(s, open.subrange(0, 32))
        }),
{
    let s = open + size + depth + chrome + close;
    let p = " "@ + chrome + flag;
    let f1 = open + size + depth.take(depth.len() - 1);
    text::lemma_occurs(f1, p, close.skip(flag.len() as int));
    assert(depth =~= depth.take(depth.len() - 1) + " "@);
    assert(close =~= flag + close.skip(flag.len() as int));
    assert(s =~= f1 + p + close.skip(flag.len() as int));
    let q = "-screen 0 "@ + size + "x24"@;
    let f2 = open.take(open.len() - 10);
    let b2 = depth.skip(3) + chrome + close;
    text::lemma_occurs(f2, q, b2);
    assert(open =~= f2 + "-screen 0 "@);
    assert(depth =~= "x24"@ + depth.skip(3));
    assert(s =~= f2 + q + b2);
    assert(s.subrange(0, 32) =~= open.subrange(0, 32));
}

/// The windows that are moved off the screen are just those of a browser that
/// can be seen and were not there before.
pub proof fn law_only_new_browser_windows_are_moved(
    windows: Seq<WindowInfo>,
    before: Seq<isize>,
    h: isize,
)
    ensures
        to_move(windows, before).contains(h) <==> exists|i: int|
            0 <= i < windows.len() && (#[trigger] windows[i]).handle == h && windows[i].visible
                && windows[i].process != 0 && !before.contains(h) && (windows[i].image matches Some(
                p,
            ) && is_browser(outside::lowercase(p@))),
        before.contains(h) ==> !to_move(windows, before).contains(h),
    decreases windows.len(),
{
    if windows.len() > 0 {
        let d = windows.drop_last();
        let n = d.len() as int;
        law_only_new_browser_windows_are_moved(d, before, h);
        let rest = to_move(d, before);
        let all = to_move(windows, before);
        if all.contains(h) {
            let k = all.index_of(h);
            if k < rest.len() {
                assert(rest[k] == h);
                let i = choose|i: int|
                    0 <= i < d.len() && (#[trigger] d[i]).handle == h && d[i].visible && d[i].process
                        != 0 && !before.contains(h) && (d[i].image matches Some(p) && is_browser(
                        outside::lowercase(p@),
                    ));
                assert(windows[i] == d[i]);
            } else {
                assert(windows[n].handle == h);
            }
        }
        if exists|i: int|
            0 <= i < windows.len() && (#[trigger] windows[i]).handle == h && windows[i].visible
                && windows[i].process != 0 && !before.contains(h) && (windows[i].image matches Some(
                p,
            ) && is_browser(outside::lowercase(p@))) {
            let i = choose|i: int|
                0 <= i < windows.len() && (#[trigger] windows[i]).handle == h && windows[i].visible
                    && windows[i].process != 0 && !before.contains(h) && (
                windows[i].image matches Some(p) && is_browser(outside::lowercase(p@)));
            if i < n {
                assert(d[i] == windows[i]);
                let k = rest.index_of(h);
                assert(all[k] == h);
            } else {
                assert(all[rest.len() as int] == h);
            }
        }
    }
}

/// A window is remembered once it was moved, once, and nothing else is.
pub proof fn law_moved_windows_are_remembered(handled: Seq<isize>, moves: Seq<isize>, h: isize)
    ensures
        handled_after(handled, moves).contains(h) <==> handled.contains(h) || moves.contains(h),
        handled.no_duplicates() ==> handled_after(handled, moves).no_duplicates(),
    decreases moves.len(),
{
    if moves.len() > 0 {
        let d = moves.drop_last();
        let last = moves.last();
        law_moved_windows_are_remembered(handled, d, h);
        law_moved_windows_are_remembered(handled, d, last);
        let rest = handled_after(handled, d);
        let all = handled_after(handled, moves);
        assert(moves.contains(h) <==> d.contains(h) || h == last) by {
            if moves.contains(h) {
                let k = moves.index_of(h);
                if k < d.len() {
                    assert(d[k] == h);
                }
            }
            if d.contains(h) {
                let k = d.index_of(h);
                assert(moves[k] == h);
            }
            assert(moves[moves.len() - 1] == last);
        }
        if !rest.contains(last) {
            assert(all[rest.len() as int] == last);
            if rest.contains(h) {
                let k = rest.index_of(h);
                assert(all[k] == h);
            }
            if all.contains(h) {
                let k = all.index_of(h);
                if k < rest.len() {
                    assert(rest[k] == h);
                }
            }
            assert(handled.no_duplicates() ==> all.no_duplicates()) by {
                if handled.no_duplicates() {
                    assert forall|i: int, j: int|
                        0 <= i < all.len() && 0 <= j < all.len() && i != j implies all[i] != all[j] by {
                        if i < rest.len() {
                            assert(rest.contains(rest[i]));
                        }
                        if j < rest.len() {
                            assert(rest.contains(rest[j]));
                        }
                    }
                }
            }
        }
    }
}

/// A program is a browser wherever its path names one.
pub proof fn law_a_browser_is_known_by_its_path(front: Seq<char>, back: Seq<char>)
    ensures
        is_browser(front + "chrome"@ + back),
        is_browser(front + "msedge"@ + back),
{
    text::lemma_occurs(front, "chrome"@, back);
    text::lemma_occurs(front, "msedge"@, back);
}

/// On Windows a program is looked for, on macOS what stands in a bundle, and
/// elsewhere no place is known.
pub proof fn law_a_browser_is_looked_for_where_the_system_keeps_it(i: int)
    ensures
        install_places(Platform::Linux).len() == 0,
        install_places(Platform::Windows).len() == 7,
        install_places(Platform::MacOs).len() == 5,
        0 <= i < 7 ==> text::ends(install_places(Platform::Windows)[i].1@, ".exe"@),
        0 <= i < 5 ==> text::occurs(install_places(Platform::MacOs)[i].1@, ".app/"@),
{
    reveal_strlit(".exe");
    reveal_strlit(".app/");
    reveal_strlit(r"Google\Chrome\Application\chrome.exe");
    reveal_strlit(r"Chromium\Application\chrome.exe");
    reveal_strlit(r"Microsoft\Edge\Application\msedge.exe");
    reveal_strlit("/Applications/Google Chrome.app/Contents/MacOS/Google Chrome");
    reveal_strlit("/Applications/Google Chrome Canary.app/Contents/MacOS/Google Chrome Canary");
    reveal_strlit("/Applications/Chromium.app/Contents/MacOS/Chromium");
    reveal_strlit("/Applications/Microsoft Edge.app/Contents/MacOS/Microsoft Edge");
    reveal_strlit("Applications/Google Chrome.app/Contents/MacOS/Google Chrome");
    if 0 <= i < 7 {
        let w = install_places(Platform::Windows)[i].1@;
        assert(w.subrange(w.len() - 4, w.len() as int) =~= ".exe"@);
    }
    if 0 <= i < 5 {
        let m = install_places(Platform::MacOs)[i].1@;
        let at: int = if i == 0 {
            27
        } else if i == 1 {
            34
        } else if i == 2 {
            22
        } else if i == 3 {
            28
        } else {
            26
        };
        assert(m.subrange(at, at + 5) =~= ".app/"@);
        assert(text::occurs_at(m, ".app/"@, at));
    }
}

} // verus!
