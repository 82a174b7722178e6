//! Starting a Chrome that is driven over a pipe: the program, what it is
//! started with, and the virtual display it is put on. No network port is
//! opened.

use crate::outside;
use crate::outside::lossy_text;
use crate::text;
use crate::text::{chars_of, decimal_text, join, lines, parse_number, text_of, trim, NumberError};
use vstd::prelude::*;
use vstd::slice::slice_subrange;

verus! {

/// The size of the viewport every page is rendered at, in pixels. Sites pick
/// their layout from it: it is that of a desktop.
pub const VIEWPORT_W: u32 = 1920;

pub const VIEWPORT_H: u32 = 1080;

/// The names Chrome goes by, in the order they are tried.
pub const CHROME_NAMES: [&'static str; 10] = [
    "google-chrome",
    "google-chrome-stable",
    "google-chrome-beta",
    "chromium",
    "chromium-browser",
    "chrome",
    "Google Chrome",
    "Chromium",
    "Microsoft Edge",
    "Google Chrome Canary",
];

/// The virtual X server a headed Chrome is put on, when there is one.
pub const XVFB: &'static str = "Xvfb";

/// An address that is not an accessibility bus. A browser off the screen must
/// never show up to the user's screen reader.
pub const NO_AT_SPI_BUS: &'static str =
    "unix:path=/nonexistent/sicompass-keeps-chrome-off-the-a11y-bus";

/// The flags every Chrome is started with.
pub const CHROME_FLAGS: [&'static str; 28] = [
    "--disable-background-networking",
    "--enable-features=NetworkService,NetworkServiceInProcess",
    "--disable-background-timer-throttling",
    "--disable-backgrounding-occluded-windows",
    "--disable-breakpad",
    "--disable-client-side-phishing-detection",
    "--disable-component-extensions-with-background-pages",
    "--disable-default-apps",
    "--disable-dev-shm-usage",
    "--disable-features=TranslateUI",
    "--disable-hang-monitor",
    "--disable-ipc-flooding-protection",
    "--disable-popup-blocking",
    "--disable-prompt-on-repost",
    "--disable-renderer-backgrounding",
    "--disable-sync",
    "--force-color-profile=srgb",
    "--metrics-recording-only",
    "--no-first-run",
    "--enable-automation",
    "--password-store=basic",
    "--use-mock-keychain",
    "--enable-blink-features=IdleDetection",
    "--lang=en_US",
    "--disable-extensions",
    "--disable-blink-features=AutomationControlled",
    "--no-default-browser-check",
    "--remote-debugging-pipe",
];

// ---------------------------------------------------------------------------
// Starting Chrome
// ---------------------------------------------------------------------------

/// The views of a list of literals.
pub open spec fn words(v: Seq<&'static str>) -> Seq<Seq<char>> {
    Seq::new(v.len(), |i: int| v[i]@)
}

/// The size of the viewport, with `sep` between width and height.
pub open spec fn viewport(sep: Seq<char>) -> Seq<char> {
    text::decimal(VIEWPORT_W as nat) + sep + text::decimal(VIEWPORT_H as nat)
}

/// What Chrome is started with.
pub open spec fn chrome_command(headless: bool, user_data_dir: Seq<char>) -> Seq<Seq<char>> {
    words(CHROME_FLAGS@) + seq![
        "--user-data-dir="@ + user_data_dir,
        "--window-size="@ + viewport(","@),
    ] + (if headless {
        seq!["--headless=new"@, "--hide-scrollbars"@, "--mute-audio"@]
    } else {
        seq!["--ozone-platform=x11"@]
    }) + seq!["about:blank"@]
}

pub(crate) fn viewport_text(sep: &str) -> (r: String)
    ensures
        r@ == viewport(sep@),
{
    let mut r = decimal_text(VIEWPORT_W as u64);
    r.append(sep);
    r.append(decimal_text(VIEWPORT_H as u64).as_str());
    r
}

/// Chrome's arguments: its flags, its profile, the size of its window, and
/// either no window at all or the display it is to use.
pub fn chrome_args(headless: bool, user_data_dir: &str) -> (r: Vec<String>)
    ensures
        text::views(r@) == chrome_command(headless, user_data_dir@),
{
    let mut args: Vec<String> = Vec::new();
    let mut i: usize = 0;
    let ghost flags = words(CHROME_FLAGS@);
    while i < CHROME_FLAGS.len()
        invariant
            i <= CHROME_FLAGS@.len(),
            flags == words(CHROME_FLAGS@),
            text::views(args@) == flags.take(i as int),
        decreases CHROME_FLAGS@.len() - i,
    {
        let ghost before = text::views(args@);
        args.push(CHROME_FLAGS[i].to_owned());
        assert(text::views(args@) =~= before.push(flags[i as int]));
        i = i + 1;
        assert(text::views(args@) =~= flags.take(i as int));
    }
    assert(flags.take(flags.len() as int) =~= flags);
    let mut profile = "--user-data-dir=".to_owned();
    profile.append(user_data_dir);
    args.push(profile);
    let mut size = "--window-size=".to_owned();
    size.append(viewport_text(",").as_str());
    args.push(size);
    let ghost sized = flags + seq![profile@, size@];
    assert(text::views(args@) =~= sized);
    if headless {
        args.push("--headless=new".to_owned());
        args.push("--hide-scrollbars".to_owned());
        args.push("--mute-audio".to_owned());
    } else {
        args.push("--ozone-platform=x11".to_owned());
    }
    let ghost shown: Seq<Seq<char>> = if headless {
        seq!["--headless=new"@, "--hide-scrollbars"@, "--mute-audio"@]
    } else {
        seq!["--ozone-platform=x11"@]
    };
    assert(text::views(args@) =~= sized + shown);
    args.push("about:blank".to_owned());
    assert(text::views(args@) =~= chrome_command(headless, user_data_dir@));
    args
}

/// The views of a list of pairs.
pub open spec fn pairs(v: Seq<(String, String)>) -> Seq<(Seq<char>, Seq<char>)> {
    Seq::new(v.len(), |i: int| (v[i].0@, v[i].1@))
}

/// What Chrome's environment sets: never the accessibility bus of the session,
/// and the virtual display it is on.
pub open spec fn env_set(display: Option<u32>) -> Seq<(Seq<char>, Seq<char>)> {
    seq![("AT_SPI_BUS_ADDRESS"@, NO_AT_SPI_BUS@)] + match display {
        Some(d) => seq![("DISPLAY"@, ":"@ + text::decimal(d as nat))],
        None => seq![],
    }
}

/// What Chrome's environment removes: on a virtual display, the compositor.
pub open spec fn env_unset(display: Option<u32>) -> Seq<Seq<char>> {
    if display is Some {
        seq!["WAYLAND_DISPLAY"@]
    } else {
        seq![]
    }
}

/// Chrome's environment: what to set and what to remove.
pub fn chrome_env(display: Option<u32>) -> (r: (Vec<(String, String)>, Vec<String>))
    ensures
        pairs(r.0@) == env_set(display),
        text::views(r.1@) == env_unset(display),
{
    let mut env: Vec<(String, String)> = Vec::new();
    let mut unset: Vec<String> = Vec::new();
    env.push(("AT_SPI_BUS_ADDRESS".to_owned(), NO_AT_SPI_BUS.to_owned()));
    if let Some(d) = display {
        let mut name = ":".to_owned();
        name.append(decimal_text(d as u64).as_str());
        env.push(("DISPLAY".to_owned(), name));
        unset.push("WAYLAND_DISPLAY".to_owned());
    }
    assert(pairs(env@) =~= env_set(display));
    assert(text::views(unset@) =~= env_unset(display));
    (env, unset)
}

/// What Xvfb is started with.
pub open spec fn xvfb_command() -> Seq<Seq<char>> {
    seq![
        "-displayfd"@,
        "1"@,
        "-screen"@,
        "0"@,
        viewport("x"@) + "x24"@,
        "-nolisten"@,
        "tcp"@,
        "-terminate"@,
    ]
}

/// Xvfb's arguments: a display of its own choosing, written to its output, a
/// screen of the size of a desktop, and an end when its last client goes.
pub fn xvfb_args() -> (r: Vec<String>)
    ensures
        text::views(r@) == xvfb_command(),
{
    let mut screen = viewport_text("x");
    screen.append("x24");
    let mut args: Vec<String> = Vec::new();
    args.push("-displayfd".to_owned());
    args.push("1".to_owned());
    args.push("-screen".to_owned());
    args.push("0".to_owned());
    args.push(screen);
    args.push("-nolisten".to_owned());
    args.push("tcp".to_owned());
    args.push("-terminate".to_owned());
    assert(text::views(args@) =~= xvfb_command());
    args
}

/// The first of Chrome's names, from `from` on, that is in `startable`.
pub open spec fn first_startable(startable: Seq<Seq<char>>, from: int) -> Option<Seq<char>>
    decreases CHROME_NAMES@.len() - from,
{
    if from < 0 || from >= CHROME_NAMES@.len() {
        None
    } else if startable.contains(CHROME_NAMES@[from]@) {
        Some(CHROME_NAMES@[from]@)
    } else {
        first_startable(startable, from + 1)
    }
}

/// The first Chrome that can be started, of the programs that can be.
pub fn find_chrome(startable: &Vec<String>) -> (r: Option<&'static str>)
    ensures
        match r {
            Some(n) => first_startable(text::views(startable@), 0) == Some(n@),
            None => first_startable(text::views(startable@), 0) is None,
        },
{
    let mut i: usize = 0;
    while i < CHROME_NAMES.len()
        invariant
            i <= CHROME_NAMES@.len(),
            first_startable(text::views(startable@), 0) == first_startable(
                text::views(startable@),
                i as int,
            ),
        decreases CHROME_NAMES@.len() - i,
    {
        if crate::history::lists(startable, CHROME_NAMES[i]) {
            return Some(CHROME_NAMES[i]);
        }
        i = i + 1;
    }
    None
}

pub const CHROME_MISSING: &'static str =
    "Chrome, Chromium or Edge was not found. Install one of them to use the web browser.";

/// What to tell a user without a browser.
pub fn chrome_missing_message() -> (r: String)
    ensures
        r@ == CHROME_MISSING@,
{
    CHROME_MISSING.to_owned()
}

/// How a Chrome is launched.
pub struct Launch<'a> {
    /// The name of the program.
    pub chrome: &'a str,
    /// The folder Chrome works in, where its profile is.
    pub profile_parent: &'a str,
    /// The name of the profile's folder.
    pub profile: &'a str,
}

/// The program to start, where, with what, and in what environment.
#[derive(Debug)]
pub struct LaunchPlan {
    pub program: String,
    pub cwd: String,
    pub args: Vec<String>,
    pub env: Vec<(String, String)>,
    pub unset: Vec<String>,
}

/// Plan the launch: headed on a virtual display when there is one, which is
/// what sites that turn a headless Chrome away accept, and headless otherwise.
pub fn launch_plan(opts: &Launch, display: Option<u32>) -> (r: LaunchPlan)
    ensures
        r.program@ == opts.chrome@,
        r.cwd@ == opts.profile_parent@,
        text::views(r.args@) == chrome_command(display is None, opts.profile@),
        pairs(r.env@) == env_set(display),
        text::views(r.unset@) == env_unset(display),
{
    let (env, unset) = chrome_env(display);
    LaunchPlan {
        program: opts.chrome.to_owned(),
        cwd: opts.profile_parent.to_owned(),
        args: chrome_args(display.is_none(), opts.profile),
        env,
        unset,
    }
}

/// The last lines of `all`, at most three, the last one first.
pub open spec fn last_lines(all: Seq<Seq<char>>) -> Seq<Seq<char>> {
    Seq::new(
        if all.len() < 3 {
            all.len()
        } else {
            3
        },
        |i: int| all[all.len() - 1 - i],
    )
}

/// What to say of a Chrome that did not start.
pub open spec fn launch_failure(
    chrome: Seq<char>,
    error: Seq<char>,
    stderr: Seq<char>,
) -> Seq<char> {
    "Chrome ("@ + chrome + ") did not start: "@ + error + " "@ + text::joined(
        last_lines(text::lines_of(stderr)),
        " | "@,
    )
}

/// Say why Chrome did not start, with the end of what it wrote to its error
/// output.
pub fn launch_error(chrome: &str, error: &str, stderr: &str) -> (r: String)
    ensures
        r@ == launch_failure(chrome@, error@, stderr@),
{
    let all = chars_of(stderr);
    let rows = lines(all.as_slice());
    let ghost ls = text::lines_of(stderr@);
    let mut tail: Vec<String> = Vec::new();
    while tail.len() < 3 && tail.len() < rows.len()
        invariant
            text::views(rows@) == ls,
            tail@.len() <= 3,
            tail@.len() <= rows@.len(),
            forall|k: int| 0 <= k < tail@.len() ==> (#[trigger] tail@[k])@ == ls[ls.len() - 1 - k],
        decreases 3 - tail.len(),
    {
        let k: usize = tail.len();
        assert(ls[ls.len() - 1 - k] == rows@[rows@.len() - 1 - k]@);
        tail.push(rows[rows.len() - 1 - k].clone());
    }
    assert(text::views(tail@) =~= last_lines(ls));
    let mut r = "Chrome (".to_owned();
    r.append(chrome);
    r.append(") did not start: ");
    r.append(error);
    r.append(" ");
    r.append(join(tail.as_slice(), " | ").as_str());
    r
}

/// The position of the first byte `b` in `s`, or its length.
pub open spec fn byte_upto(s: Seq<u8>, b: u8) -> int
    decreases s.len(),
{
    if s.len() == 0 || s[0] == b {
        0
    } else {
        1 + byte_upto(s.skip(1), b)
    }
}

pub(crate) fn find_byte(s: &[u8], b: u8) -> (r: usize)
    ensures
        r == byte_upto(s@, b),
        r <= s.len(),
{
    let mut i: usize = 0;
    assert(s@.skip(0) =~= s@);
    while i < s.len() && s[i] != b
        invariant
            i <= s.len(),
            byte_upto(s@, b) == i + byte_upto(s@.skip(i as int), b),
        decreases s.len() - i,
    {
        assert(s@.skip(i as int).skip(1) =~= s@.skip(i + 1));
        i = i + 1;
    }
    i
}

/// What a reader says of a text that is not a number.
pub open spec fn number_failure(e: NumberError) -> Seq<char> {
    match e {
        NumberError::Empty => "cannot parse integer from empty string"@,
        NumberError::InvalidDigit => "invalid digit found in string"@,
        NumberError::TooLarge => "number too large to fit in target type"@,
    }
}

/// The number of the display that Xvfb wrote, once it has written a line.
pub open spec fn display_in(out: Seq<u8>) -> Option<Result<nat, Seq<char>>> {
    let end = byte_upto(out, 10);
    if end >= out.len() {
        None
    } else {
        match text::number_value(
            text::trim_of(outside::lossy(out.take(end))),
            u32::MAX as nat,
        ) {
            Ok(n) => Some(Ok(n)),
            Err(e) => Some(Err(number_failure(e))),
        }
    }
}

/// Read the number of the display from what Xvfb has written so far.
pub fn xvfb_display(out: &[u8]) -> (r: Option<Result<u32, String>>)
    ensures
        match r {
            None => display_in(out@) is None,
            Some(Ok(n)) => display_in(out@) == Some(Ok::<nat, Seq<char>>(n as nat)),
            Some(Err(e)) => display_in(out@) == Some(Err::<nat, Seq<char>>(e@)),
        },
{
    let end: usize = find_byte(out, 10);
    if end == out.len() {
        return None;
    }
    let line = slice_subrange(out, 0, end);
    assert(line@ =~= out@.take(end as int));
    let all = chars_of(lossy_text(line).as_str());
    Some(
        match parse_number(trim(all.as_slice()), u32::MAX as u64) {
            Ok(n) => Ok(n as u32),
            Err(NumberError::Empty) => Err("cannot parse integer from empty string".to_owned()),
            Err(NumberError::InvalidDigit) => Err("invalid digit found in string".to_owned()),
            Err(NumberError::TooLarge) => Err("number too large to fit in target type".to_owned()),
        },
    )
}

/// What is said where Xvfb writes no number in its time.
pub const NO_DISPLAY: &'static str = "no display number after 10 s";

/// What one look at a starting Xvfb comes to: the line it wrote comes first,
/// then that it has ended, with `stderr` for its error output, then the end of
/// its time.
pub open spec fn display_outcome(
    out: Seq<u8>,
    stderr: Option<Seq<u8>>,
    past_deadline: bool,
) -> Option<Result<nat, Seq<char>>> {
    match (display_in(out), stderr) {
        (Some(d), _) => Some(d),
        (None, Some(e)) => Some(Err(text::trim_of(outside::lossy(e)))),
        (None, None) => if past_deadline {
            Some(Err(NO_DISPLAY@))
        } else {
            None
        },
    }
}

/// One look at a starting Xvfb: `out` is what it has written so far, and
/// `exited` its error output where it has ended. `None` to look again.
pub fn xvfb_step(out: &[u8], exited: Option<&[u8]>, past_deadline: bool) -> (r: Option<
    Result<u32, String>,
>)
    ensures
        ({
            let stderr = match exited {
                Some(e) => Some(e@),
                None => None,
            };
            match r {
                None => display_outcome(out@, stderr, past_deadline) is None,
                Some(Ok(n)) => display_outcome(out@, stderr, past_deadline) == Some(
                    Ok::<nat, Seq<char>>(n as nat),
                ),
                Some(Err(e)) => display_outcome(out@, stderr, past_deadline) == Some(
                    Err::<nat, Seq<char>>(e@),
                ),
            }
        }),
{
    let display = xvfb_display(out);
    if display.is_some() {
        return display;
    }
    if let Some(stderr) = exited {
        let all = chars_of(lossy_text(stderr).as_str());
        return Some(Err(text_of(trim(all.as_slice()))));
    }
    if past_deadline {
        return Some(Err(NO_DISPLAY.to_owned()));
    }
    None
}

/// The flag that would open a network port.
pub const PORT_FLAG: &'static str = "--remote-debugging-port";

proof fn lemma_differs(s: Seq<char>, p: Seq<char>, k: int)
    requires
        0 <= k < s.len(),
        k < p.len(),
        s[k] != p[k],
    ensures
        !text::begins(s, p),
{
    if text::begins(s, p) {
        assert(s.subrange(0, p.len() as int)[k] == p[k]);
    }
}

/// Chrome talks over its pipe and never opens a network port, whatever its
/// profile and whether it has a window or not.
pub proof fn law_chrome_opens_no_port(headless: bool, user_data_dir: Seq<char>)
    ensures
        chrome_command(headless, user_data_dir).contains("--remote-debugging-pipe"@),
        forall|i: int|
            0 <= i < chrome_command(headless, user_data_dir).len() ==> !text::begins(
                #[trigger] chrome_command(headless, user_data_dir)[i],
                PORT_FLAG@,
            ),
{
    reveal_strlit("--disable-background-networking");
    reveal_strlit("--enable-features=NetworkService,NetworkServiceInProcess");
    reveal_strlit("--disable-background-timer-throttling");
    reveal_strlit("--disable-backgrounding-occluded-windows");
    reveal_strlit("--disable-breakpad");
    reveal_strlit("--disable-client-side-phishing-detection");
    reveal_strlit("--disable-component-extensions-with-background-pages");
    reveal_strlit("--disable-default-apps");
    reveal_strlit("--disable-dev-shm-usage");
    reveal_strlit("--disable-features=TranslateUI");
    reveal_strlit("--disable-hang-monitor");
    reveal_strlit("--disable-ipc-flooding-protection");
    reveal_strlit("--disable-popup-blocking");
    reveal_strlit("--disable-prompt-on-repost");
    reveal_strlit("--disable-renderer-backgrounding");
    reveal_strlit("--disable-sync");
    reveal_strlit("--force-color-profile=srgb");
    reveal_strlit("--metrics-recording-only");
    reveal_strlit("--no-first-run");
    reveal_strlit("--enable-automation");
    reveal_strlit("--password-store=basic");
    reveal_strlit("--use-mock-keychain");
    reveal_strlit("--enable-blink-features=IdleDetection");
    reveal_strlit("--lang=en_US");
    reveal_strlit("--disable-extensions");
    reveal_strlit("--disable-blink-features=AutomationControlled");
    reveal_strlit("--no-default-browser-check");
    reveal_strlit("--remote-debugging-pipe");
    reveal_strlit("--user-data-dir=");
    reveal_strlit("--window-size=");
    reveal_strlit("--headless=new");
    reveal_strlit("--hide-scrollbars");
    reveal_strlit("--mute-audio");
    reveal_strlit("--ozone-platform=x11");
    reveal_strlit("about:blank");
    reveal_strlit("--remote-debugging-port");
    let flags = words(CHROME_FLAGS@);
    lemma_differs(flags[0], PORT_FLAG@, 2);
    lemma_differs(flags[1], PORT_FLAG@, 2);
    lemma_differs(flags[2], PORT_FLAG@, 2);
    lemma_differs(flags[3], PORT_FLAG@, 2);
    lemma_differs(flags[4], PORT_FLAG@, 2);
    lemma_differs(flags[5], PORT_FLAG@, 2);
    lemma_differs(flags[6], PORT_FLAG@, 2);
    lemma_differs(flags[7], PORT_FLAG@, 2);
    lemma_differs(flags[8], PORT_FLAG@, 2);
    lemma_differs(flags[9], PORT_FLAG@, 2);
    lemma_differs(flags[10], PORT_FLAG@, 2);
    lemma_differs(flags[11], PORT_FLAG@, 2);
    lemma_differs(flags[12], PORT_FLAG@, 2);
    lemma_differs(flags[13], PORT_FLAG@, 2);
    lemma_differs(flags[14], PORT_FLAG@, 2);
    lemma_differs(flags[15], PORT_FLAG@, 2);
    lemma_differs(flags[16], PORT_FLAG@, 2);
    lemma_differs(flags[17], PORT_FLAG@, 2);
    lemma_differs(flags[18], PORT_FLAG@, 2);
    lemma_differs(flags[19], PORT_FLAG@, 2);
    lemma_differs(flags[20], PORT_FLAG@, 2);
    lemma_differs(flags[21], PORT_FLAG@, 2);
    lemma_differs(flags[22], PORT_FLAG@, 2);
    lemma_differs(flags[23], PORT_FLAG@, 2);
    lemma_differs(flags[24], PORT_FLAG@, 2);
    lemma_differs(flags[25], PORT_FLAG@, 2);
    lemma_differs(flags[26], PORT_FLAG@, 2);
    lemma_differs(flags[27], PORT_FLAG@, 20);
    lemma_differs("--user-data-dir="@ + user_data_dir, PORT_FLAG@, 2);
    lemma_differs("--window-size="@ + viewport(","@), PORT_FLAG@, 2);
    lemma_differs("--headless=new"@, PORT_FLAG@, 2);
    lemma_differs("--hide-scrollbars"@, PORT_FLAG@, 2);
    lemma_differs("--mute-audio"@, PORT_FLAG@, 2);
    lemma_differs("--ozone-platform=x11"@, PORT_FLAG@, 2);
    lemma_differs("about:blank"@, PORT_FLAG@, 0);
    let all = chrome_command(headless, user_data_dir);
    assert(all[27] == "--remote-debugging-pipe"@);
    assert forall|i: int| 0 <= i < 28 implies !text::begins(#[trigger] flags[i], PORT_FLAG@) by {
    }
    assert forall|i: int| 0 <= i < all.len() implies !text::begins(#[trigger] all[i], PORT_FLAG@) by {
        if i < 28 {
            assert(all[i] == flags[i]);
        }
    }
}

/// Chrome is started with the profile it was given and in the size of a
/// desktop, without a window just where it is to have none, and with nothing to
/// load.
pub proof fn law_chrome_is_started_as_it_was_asked(headless: bool, dir: Seq<char>)
    ensures
        chrome_command(headless, dir).contains("--user-data-dir="@ + dir),
        chrome_command(headless, dir).contains("--window-size="@ + viewport(","@)),
        viewport(","@) == text::decimal(1920) + ","@ + text::decimal(1080),
        chrome_command(true, dir).contains("--headless=new"@),
        !chrome_command(true, dir).contains("--ozone-platform=x11"@),
        chrome_command(false, dir).contains("--ozone-platform=x11"@),
        chrome_command(false, dir).len() == 32,
        chrome_command(headless, dir).last() == "about:blank"@,
{
    let all = chrome_command(headless, dir);
    assert(all[28] == "--user-data-dir="@ + dir);
    assert(all[29] == "--window-size="@ + viewport(","@));
    assert(chrome_command(true, dir)[30] == "--headless=new"@);
    assert(chrome_command(false, dir)[30] == "--ozone-platform=x11"@);
    lemma_no_ozone(dir);
}

proof fn lemma_no_ozone(dir: Seq<char>)
    ensures
        !chrome_command(true, dir).contains("--ozone-platform=x11"@),
{
    reveal_strlit("--ozone-platform=x11");
    reveal_strlit("--disable-background-networking");
    reveal_strlit("--enable-features=NetworkService,NetworkServiceInProcess");
    reveal_strlit("--disable-background-timer-throttling");
    reveal_strlit("--disable-backgrounding-occluded-windows");
    reveal_strlit("--disable-breakpad");
    reveal_strlit("--disable-client-side-phishing-detection");
    reveal_strlit("--disable-component-extensions-with-background-pages");
    reveal_strlit("--disable-default-apps");
    reveal_strlit("--disable-dev-shm-usage");
    reveal_strlit("--disable-features=TranslateUI");
    reveal_strlit("--disable-hang-monitor");
    reveal_strlit("--disable-ipc-flooding-protection");
    reveal_strlit("--disable-popup-blocking");
    reveal_strlit("--disable-prompt-on-repost");
    reveal_strlit("--disable-renderer-backgrounding");
    reveal_strlit("--disable-sync");
    reveal_strlit("--force-color-profile=srgb");
    reveal_strlit("--metrics-recording-only");
    reveal_strlit("--no-first-run");
    reveal_strlit("--enable-automation");
    reveal_strlit("--password-store=basic");
    reveal_strlit("--use-mock-keychain");
    reveal_strlit("--enable-blink-features=IdleDetection");
    reveal_strlit("--lang=en_US");
    reveal_strlit("--disable-extensions");
    reveal_strlit("--disable-blink-features=AutomationControlled");
    reveal_strlit("--no-default-browser-check");
    reveal_strlit("--remote-debugging-pipe");
    reveal_strlit("--user-data-dir=");
    reveal_strlit("--window-size=");
    reveal_strlit("--headless=new");
    reveal_strlit("--hide-scrollbars");
    reveal_strlit("--mute-audio");
    reveal_strlit("about:blank");
    let all = chrome_command(true, dir);
    let flags = words(CHROME_FLAGS@);
    assert forall|i: int| 0 <= i < all.len() implies #[trigger] all[i] != "--ozone-platform=x11"@ by {
        if i < 28 {
            assert(all[i] == flags[i]);
            assert(flags[i][2] != 'o');
        } else if i < 33 {
            assert(all[i][2] != 'o');
        } else {
            assert(all[i][0] == 'a');
        }
    }
}

/// A Chrome off the screen never reaches the accessibility bus of the session,
/// and on a virtual display it is told which one and not the compositor's.
pub proof fn law_chrome_is_put_on_its_display(d: u32)
    ensures
        env_set(Some(d)).contains(("AT_SPI_BUS_ADDRESS"@, NO_AT_SPI_BUS@)),
        env_set(None).contains(("AT_SPI_BUS_ADDRESS"@, NO_AT_SPI_BUS@)),
        env_set(Some(d)).contains(("DISPLAY"@, ":"@ + text::decimal(d as nat))),
        env_set(None).len() == 1,
        env_unset(Some(d)).contains("WAYLAND_DISPLAY"@),
        env_unset(None).len() == 0,
{
    assert(env_set(Some(d))[0] == ("AT_SPI_BUS_ADDRESS"@, NO_AT_SPI_BUS@));
    assert(env_set(None)[0] == ("AT_SPI_BUS_ADDRESS"@, NO_AT_SPI_BUS@));
    assert(env_set(Some(d))[1] == ("DISPLAY"@, ":"@ + text::decimal(d as nat)));
    assert(env_unset(Some(d))[0] == "WAYLAND_DISPLAY"@);
}

/// The name number `k` is the first, from `from` on, that can be started.
pub open spec fn is_first_startable(startable: Seq<Seq<char>>, from: int, k: int) -> bool {
    &&& from <= k < CHROME_NAMES@.len()
    &&& startable.contains(CHROME_NAMES@[k]@)
    &&& forall|j: int| from <= j < k ==> !startable.contains(#[trigger] CHROME_NAMES@[j]@)
}

/// The Chrome that is started is the first of its names that can be, and one is
/// started wherever one can be.
pub proof fn law_the_first_chrome_is_started(startable: Seq<Seq<char>>, from: int)
    requires
        0 <= from,
    ensures
        match first_startable(startable, from) {
            Some(name) => startable.contains(name) && exists|k: int| #[trigger]
                is_first_startable(startable, from, k) && CHROME_NAMES@[k]@ == name,
            None => forall|k: int|
                from <= k < CHROME_NAMES@.len() ==> !startable.contains(
                    #[trigger] CHROME_NAMES@[k]@,
                ),
        },
    decreases CHROME_NAMES@.len() - from,
{
    if from < CHROME_NAMES@.len() {
        if !startable.contains(CHROME_NAMES@[from]@) {
            law_the_first_chrome_is_started(startable, from + 1);
            if let Some(name) = first_startable(startable, from + 1) {
                let k = choose|k: int| #[trigger]
                    is_first_startable(startable, from + 1, k) && CHROME_NAMES@[k]@ == name;
                assert(is_first_startable(startable, from, k));
            }
        } else {
            assert(is_first_startable(startable, from, from));
        }
    }
}

/// What Chrome said last is told with why it did not start, and so are its name
/// and the error.
pub proof fn law_a_failed_start_says_why(
    chrome: Seq<char>,
    error: Seq<char>,
    stderr: Seq<char>,
    i: int,
)
    ensures
        text::occurs(launch_failure(chrome, error, stderr), chrome),
        text::occurs(launch_failure(chrome, error, stderr), error),
        ({
            let all = text::lines_of(stderr);
            let told = last_lines(all);
            &&& told.len() <= 3 && told.len() <= all.len()
            &&& all.len() >= 3 ==> told.len() == 3
            &&& 0 <= i < told.len() ==> told[i] == all[all.len() - 1 - i]
        }),
{
    let whole = launch_failure(chrome, error, stderr);
    let tail = text::joined(last_lines(text::lines_of(stderr)), " | "@);
    let a = "Chrome ("@;
    let b = ") did not start: "@;
    text::lemma_occurs(a, chrome, b + error + " "@ + tail);
    assert(whole =~= a + chrome + (b + error + " "@ + tail));
    text::lemma_occurs(a + chrome + b, error, " "@ + tail);
    assert(whole =~= (a + chrome + b) + error + (" "@ + tail));
}

proof fn lemma_line_end(line: Seq<u8>, rest: Seq<u8>)
    requires
        !line.contains(10),
    ensures
        byte_upto(line + seq![10u8] + rest, 10) == line.len(),
    decreases line.len(),
{
    let s = line + seq![10u8] + rest;
    if line.len() == 0 {
        assert(s[0] == 10);
    } else {
        assert(s[0] == line[0]);
        assert(line.contains(line[0]));
        assert(s.skip(1) =~= line.skip(1) + seq![10u8] + rest);
        assert forall|b: u8| line.skip(1).contains(b) implies line.contains(b) by {
            let k = line.skip(1).index_of(b);
            assert(line[k + 1] == b);
        }
        lemma_line_end(line.skip(1), rest);
    }
}

/// The number of the display is what the first line says, whatever follows it;
/// before that line has ended there is none.
pub proof fn law_the_first_line_names_the_display(line: Seq<u8>, rest: Seq<u8>, d: nat)
    requires
        !line.contains(10),
    ensures
        display_in(line) is None,
        display_in(line + seq![10u8] + rest) is Some,
        display_in(line + seq![10u8] + rest) == display_in(line + seq![10u8]),
        d <= u32::MAX && text::trim_of(outside::lossy(line)) == text::decimal(d) ==> display_in(
            line + seq![10u8] + rest,
        ) == Some(Ok::<nat, Seq<char>>(d)),
{
    let s = line + seq![10u8] + rest;
    let one = line + seq![10u8];
    lemma_line_end(line, rest);
    lemma_line_end(line, seq![]);
    assert(line + seq![10u8] + Seq::<u8>::empty() =~= one);
    assert(s.take(line.len() as int) =~= line);
    assert(one.take(line.len() as int) =~= line);
    lemma_no_line_end(line);
    if d <= u32::MAX {
        text::law_a_written_number_reads_back(d, u32::MAX as nat);
    }
}

proof fn lemma_no_line_end(line: Seq<u8>)
    requires
        !line.contains(10),
    ensures
        byte_upto(line, 10) == line.len(),
    decreases line.len(),
{
    if line.len() > 0 {
        assert(line.contains(line[0]));
        assert forall|b: u8| line.skip(1).contains(b) implies line.contains(b) by {
            let k = line.skip(1).index_of(b);
            assert(line[k + 1] == b);
        }
        lemma_no_line_end(line.skip(1));
    }
}

/// A starting Xvfb is looked at again only while it has said nothing, still
/// runs and has time left; a number that it wrote is taken, whatever else.
pub proof fn law_xvfb_is_waited_for(out: Seq<u8>, stderr: Option<Seq<u8>>, past_deadline: bool)
    ensures
        display_outcome(out, stderr, past_deadline) is None <==> display_in(out) is None
            && stderr is None && !past_deadline,
        display_in(out) is Some ==> display_outcome(out, stderr, past_deadline) == display_in(out),
        display_in(out) is None ==> match display_outcome(out, stderr, past_deadline) {
            Some(r) => r is Err,
            None => true,
        },
{
}

/// The virtual screen has the size of a desktop, is reached over no network,
/// and goes when its last client goes.
pub proof fn law_the_virtual_screen_is_a_desktop()
    ensures
        xvfb_command().contains(text::decimal(1920) + "x"@ + text::decimal(1080) + "x24"@),
        xvfb_command().contains("-terminate"@),
        exists|i: int|
            0 <= i < xvfb_command().len() - 1 && #[trigger] xvfb_command()[i] == "-nolisten"@
                && xvfb_command()[i + 1] == "tcp"@,
        xvfb_command()[0] == "-displayfd"@ && xvfb_command()[1] == "1"@,
{
    assert(xvfb_command()[4] == text::decimal(1920) + "x"@ + text::decimal(1080) + "x24"@);
    assert(xvfb_command()[7] == "-terminate"@);
    assert(xvfb_command()[5] == "-nolisten"@ && xvfb_command()[6] == "tcp"@);
}

/// A first line that names no display is refused, and the reason is said.
pub proof fn law_a_line_without_a_number_is_refused(out: Seq<u8>)
    requires
        byte_upto(out, 10) < out.len(),
    ensures
        ({
            let line = text::trim_of(outside::lossy(out.take(byte_upto(out, 10))));
            &&& line.len() == 0 ==> display_in(out) == Some(
                Err::<nat, Seq<char>>("cannot parse integer from empty string"@),
            )
            &&& line.len() == 1 && !text::ascii_digit(line[0]) ==> display_in(out) == Some(
                Err::<nat, Seq<char>>("invalid digit found in string"@),
            )
        }),
{
    let line = text::trim_of(outside::lossy(out.take(byte_upto(out, 10))));
    if line.len() == 1 {
        assert(line.drop_last() =~= Seq::<char>::empty());
        assert(text::digits_value(line.drop_last(), u32::MAX as nat) is Ok);
    }
}

} // verus!
