//! The scripts that run in the page.
//!
//! One is there before every page and keeps it from treating the reader as a
//! robot. The other reads the page once it has settled: it leaves out what
//! nobody can see, and puts the rest in the order it is laid out in.

use vstd::prelude::*;

verus! {

/// Runs before every page.
pub const STEALTH_SCRIPT: &'static str = r#"
// ── 1. navigator.webdriver ───────────────────────────────────────────────────
// The primary signal Cloudflare checks. Remove it entirely.
Object.defineProperty(navigator, 'webdriver', { get: () => undefined });

// ── 2. navigator.plugins ─────────────────────────────────────────────────────
// Headless Chrome has zero plugins; real Chrome has several.
const _makePlugin = (name, desc, filename, mimeTypes) => {
    const plugin = Object.create(Plugin.prototype);
    Object.defineProperties(plugin, {
        name: { value: name }, description: { value: desc },
        filename: { value: filename }, length: { value: mimeTypes.length },
    });
    mimeTypes.forEach((mt, i) => { plugin[i] = mt; });
    return plugin;
};
const _pdf = Object.create(MimeType.prototype);
Object.defineProperties(_pdf, {
    type: { value: 'application/pdf' }, suffixes: { value: 'pdf' },
    description: { value: 'Portable Document Format' },
});
const _plugins = [
    _makePlugin('PDF Viewer', 'Portable Document Format', 'internal-pdf-viewer', [_pdf]),
    _makePlugin('Chrome PDF Viewer', 'Portable Document Format', 'internal-pdf-viewer', [_pdf]),
    _makePlugin('Chromium PDF Viewer', 'Portable Document Format', 'internal-pdf-viewer', [_pdf]),
    _makePlugin('Microsoft Edge PDF Viewer', 'Portable Document Format', 'internal-pdf-viewer', [_pdf]),
    _makePlugin('WebKit built-in PDF', 'Portable Document Format', 'internal-pdf-viewer', [_pdf]),
];
Object.defineProperty(navigator, 'plugins', {
    get: () => {
        const arr = [..._plugins];
        Object.setPrototypeOf(arr, PluginArray.prototype);
        arr.item = (i) => arr[i]; arr.namedItem = (n) => arr.find(p => p.name === n);
        arr.refresh = () => {};
        return arr;
    }
});
Object.defineProperty(navigator, 'mimeTypes', {
    get: () => {
        const arr = [_pdf];
        Object.setPrototypeOf(arr, MimeTypeArray.prototype);
        arr.item = (i) => arr[i]; arr.namedItem = (n) => arr.find(m => m.type === n);
        return arr;
    }
});

// ── 3. navigator.vendor + languages ──────────────────────────────────────────
Object.defineProperty(navigator, 'vendor', { get: () => 'Google Inc.' });
Object.defineProperty(navigator, 'languages', { get: () => ['nl-BE', 'nl', 'en-US', 'en'] });

// ── 4. window.chrome ─────────────────────────────────────────────────────────
// Real Chrome exposes window.chrome with loadTimes, csi, etc.
if (!window.chrome) {
    window.chrome = {
        app: {
            isInstalled: false,
            InstallState: { DISABLED: 'disabled', INSTALLED: 'installed', NOT_INSTALLED: 'not_installed' },
            RunningState: { CANNOT_RUN: 'cannot_run', READY_TO_RUN: 'ready_to_run', RUNNING: 'running' },
            getDetails: () => null, getIsInstalled: () => false,
            installState: () => 'not_installed',
        },
        runtime: {
            OnInstalledReason: { CHROME_UPDATE: 'chrome_update', INSTALL: 'install', SHARED_MODULE_UPDATE: 'shared_module_update', UPDATE: 'update' },
            OnRestartRequiredReason: { APP_UPDATE: 'app_update', GC_PRESSURE: 'gc_pressure', OS_UPDATE: 'os_update' },
            PlatformArch: { ARM: 'arm', ARM64: 'arm64', MIPS: 'mips', MIPS64: 'mips64', X86_32: 'x86-32', X86_64: 'x86-64' },
            PlatformNaclArch: { ARM: 'arm', MIPS: 'mips', MIPS64: 'mips64', X86_32: 'x86-32', X86_64: 'x86-64' },
            PlatformOs: { ANDROID: 'android', CROS: 'cros', LINUX: 'linux', MAC: 'mac', OPENBSD: 'openbsd', WIN: 'win' },
            RequestUpdateCheckStatus: { NO_UPDATE: 'no_update', THROTTLED: 'throttled', UPDATE_AVAILABLE: 'update_available' },
            connect: () => {}, sendMessage: () => {},
        },
        loadTimes: () => ({
            requestTime: performance.timing.navigationStart / 1000,
            startLoadTime: performance.timing.navigationStart / 1000,
            commitLoadTime: performance.timing.responseStart / 1000,
            finishDocumentLoadTime: performance.timing.domContentLoadedEventEnd / 1000,
            finishLoadTime: performance.timing.loadEventEnd / 1000,
            firstPaintTime: 0, firstPaintAfterLoadTime: 0,
            navigationType: 'Other', wasFetchedViaSpdy: false, wasNpnNegotiated: false,
            npnNegotiatedProtocol: 'unknown', wasAlternateProtocolAvailable: false,
            connectionInfo: 'http/1.1',
        }),
        csi: () => ({
            startE: performance.timing.navigationStart,
            onloadT: performance.timing.loadEventEnd,
            pageT: performance.now(), tran: 15,
        }),
    };
}

// ── 5. permissions.query ──────────────────────────────────────────────────────
const _origQuery = navigator.permissions.query.bind(navigator.permissions);
navigator.permissions.query = (p) =>
    p.name === 'notifications'
        ? Promise.resolve({ state: Notification.permission })
        : _origQuery(p);

// ── 6. iframe contentWindow ───────────────────────────────────────────────────
// Headless iframes expose webdriver in their contentWindow; patch them too.
const _origGet = Object.getOwnPropertyDescriptor(HTMLIFrameElement.prototype, 'contentWindow').get;
Object.defineProperty(HTMLIFrameElement.prototype, 'contentWindow', {
    get() {
        const cw = _origGet.call(this);
        if (cw) {
            try { Object.defineProperty(cw.navigator, 'webdriver', { get: () => undefined }); } catch(_) {}
        }
        return cw;
    }
});

// ── 7. Screen dimensions ──────────────────────────────────────────────────────
// Headless Chrome reports tiny/zero outerHeight. Real browsers have chrome UI.
if (window.outerHeight === 0) {
    Object.defineProperty(window, 'outerHeight', { get: () => window.innerHeight + 74 });
    Object.defineProperty(window, 'outerWidth',  { get: () => window.innerWidth });
}

// ── 8. Page visibility ────────────────────────────────────────────────────────
// On Windows the browser window is hidden via ShowWindow(SW_HIDE), which can
// cause Chrome to report visibilityState = "hidden".  Consent-page React apps
// (e.g. DPG Media / myprivacy.dpgmedia.be) check this before rendering; if the
// page appears hidden they skip hydration entirely, leaving no accept button in
// the DOM.  Always report the page as visible.
try {
    Object.defineProperty(document, 'visibilityState', { get: () => 'visible' });
    Object.defineProperty(document, 'hidden',          { get: () => false });
} catch(_) {}
"#;

/// What the passes over the page share: constants, what is visible, and where
/// it is laid out.
pub const PRUNE_JS_HEAD: &'static str = r##"(function() {
    // Never rendered content in the first place, and FFON drops them anyway
    // (HTML_SKIP_TAGS), so keeping them costs the reader nothing — while the
    // load flow does sniff inline <script> for Google's consent values and for
    // the wall's own marker.  Checked before every other rule: Google stamps
    // aria-hidden="true" on its inline scripts, which would otherwise take the
    // consent values out with them.
    const NEVER_MARK = new Set([
        'SCRIPT','STYLE','NOSCRIPT','TEMPLATE','LINK','META','TITLE','BASE',
    ]);
    // UA stylesheets give these `display:none` (input[type=hidden]) for reasons
    // that have nothing to do with whether the user can see them.  Their
    // ancestors stay eligible, so a parked dialog full of controls still goes.
    const DISPLAY_EXEMPT = new Set(['INPUT','SELECT','OPTION','OPTGROUP','TEXTAREA']);
    const NEVER = new Set(['HTML','HEAD','BODY']);
    const MARK = 'data-sic-hidden';
    const PARK = 'data-sic-parked';
    // Geometry, carried to the clone as "x y w h flags". It has to travel as an
    // attribute: a detached clone is not laid out, so getBoundingClientRect on
    // it returns zeros — the numbers can only come from the live nodes.
    const GEO = 'data-sic-g';
    // Parked: moved to the end of the document, so it must stay there. Nothing
    // display:none has geometry to sort by, and the reading order pass would
    // otherwise pull it back into the middle on the strength of a missing box.
    const PIN = 'data-sic-pin';
    const F_FIXED = 1, F_ABS = 2, F_RTL = 4, F_NOSORT = 8, F_INLINE = 16;
    // Displays whose children are not independently positioned blocks, so
    // sorting them by geometry would scramble a line of text or a table.
    const NO_REFLOW_DISPLAY = new Set([
        'inline','inline-block','inline-flex','inline-grid','contents','list-item',
        'table','table-row','table-cell','table-row-group','table-header-group',
        'table-footer-group','ruby','ruby-text',
    ]);

    // Something the reader could act on: a link, a control, a heading. A
    // subtree holding any of these is the site's own navigation or UI, not
    // leftover markup — bpost keeps its whole main menu in a Bootstrap
    // .navbar-collapse that is display:none even on a 1920px viewport, and
    // dropping it takes "Pakje verzenden" and "Pakje ontvangen" with it.
    // Nothing here can press the hamburger to get them back, so they stay.
    const INTERACTIVE = 'a[href], button, input, select, textarea, ' +
        '[role="button"], [role="link"], [role="menuitem"], [role="tab"], ' +
        'h1, h2, h3, h4, h5, h6';
    function actionable(el) {
        try { return el.matches(INTERACTIVE) || !!el.querySelector(INTERACTIVE); }
        catch (e) { return false; }
    }

    const HIDE = 1, PARK_IT = 2, KEEP = 3;

    // One element's verdict, with no side effects. Keeping this a pure read is
    // what lets the walk below stay a read-only pass: interleaving
    // getComputedStyle with setAttribute, which is what this did when marking
    // was all it had to do, dirties style between reads and forces a fresh
    // layout flush on the next one.
    // The computed style `verdict` just read, so the geometry pass can reuse it
    // instead of paying for a second getComputedStyle. That call is the single
    // most expensive thing in this script; a rect read next to it is noise.
    let lastStyle = null;
    function verdict(el) {
        lastStyle = null;
        if (NEVER_MARK.has(el.tagName)) return KEEP;
        // `hidden` and `aria-hidden` are the author saying "assistive tech must
        // not see this". This app is assistive tech, so it obeys, links or no
        // links — that is what takes bpost's parked language modal out.
        if (el.hasAttribute('hidden')) return HIDE;
        if (el.getAttribute('aria-hidden') === 'true') return HIDE;
        let s;
        try { s = getComputedStyle(el); } catch (e) { return KEEP; }
        if (!s) return KEEP;
        lastStyle = s;
        const invisible = s.visibility === 'hidden' || s.visibility === 'collapse' ||
            (s.display === 'none' && !DISPLAY_EXEMPT.has(el.tagName));
        // Merely off-screen: dead weight goes, anything you could act on is
        // kept but gets moved out of the way (see PARK below).
        if (!invisible) return KEEP;
        if (actionable(el)) {
            // Parking is for menus. A subtree carrying the page's <h1> is the
            // content itself — bpost wraps its article in a container classed
            // `hide_section`, and moving that to the end would file the whole
            // page after the navigation. (Text length is no use as a signal:
            // textContent counts inline scripts, and innerText is empty for
            // anything not rendered.)
            let isContent = true;
            try { isContent = el.tagName === 'H1' || !!el.querySelector('h1'); } catch (e) {}
            return isContent ? KEEP : PARK_IT;
        }
        return HIDE;
    }

    // A wrapper that is `display:contents`, floats-only or a zero-height flex
    // parent measures 0x0 while its children are perfectly well placed. Take
    // the union of what is inside instead. Capped hard: this is a repair for a
    // handful of nodes, not a second traversal of the document.
    function unionOfDescendants(el) {
        let x0 = Infinity, y0 = Infinity, x1 = -Infinity, y1 = -Infinity, seen = 0;
        const queue = [el];
        while (queue.length && seen < 32) {
            const node = queue.shift();
            for (const kid of node.children) {
                seen++;
                if (seen > 32) break;
                let r;
                try { r = kid.getBoundingClientRect(); } catch (e) { continue; }
                if (r.width > 0 && r.height > 0) {
                    x0 = Math.min(x0, r.left); y0 = Math.min(y0, r.top);
                    x1 = Math.max(x1, r.right); y1 = Math.max(y1, r.bottom);
                } else {
                    queue.push(kid);
                }
            }
        }
        if (x0 === Infinity) return null;
        return { x: x0, y: y0, w: x1 - x0, h: y1 - y0 };
    }

    // Read the layout Chrome has already done. `s` is the style `verdict` just
    // computed for this element, so this adds a rect read and nothing else.
    function measure(el, s) {
        let r;
        try { r = el.getBoundingClientRect(); } catch (e) { return null; }
        let x = r.left, y = r.top, w = r.width, h = r.height;
        if (w === 0 || h === 0) {
            const u = unionOfDescendants(el);
            if (u) { x = u.x; y = u.y; w = u.w; h = u.h; }
        }
        let f = 0;
        if (s) {
            if (s.position === 'fixed') f |= F_FIXED;
            // `sticky` is deliberately absent: nothing scrolls this page, so at
            // offset 0 a sticky element sits at its honest in-flow position.
            else if (s.position === 'absolute') f |= F_ABS;
            if (s.direction === 'rtl') f |= F_RTL;
            // Multi-column text flows down one column then down the next, so a
            // band-then-x sort would interleave the columns into nonsense.
            if (s.columnCount !== 'auto' || s.columnWidth !== 'normal') f |= F_NOSORT;
            if (NO_REFLOW_DISPLAY.has(s.display)) f |= F_INLINE;
        }
        // scrollX/scrollY are 0 (nothing has scrolled) but cost nothing and make
        // the numbers document-absolute rather than viewport-relative.
        return [Math.round(x + scrollX), Math.round(y + scrollY),
                Math.round(w), Math.round(h), f];
    }

"##;

/// Leaves out what cannot be seen.
pub const PRUNE_JS_BODY: &'static str = r##"
    // ---- read pass: no DOM writes at all ----
    const toMark = [], toPark = [], geo = new Map();
    // Top-down walk: once a subtree is marked its descendants go with it, so
    // skip them rather than paying getComputedStyle on every one.  A parked
    // subtree is still walked into, because PARK only moves the outermost one
    // and its descendants each get their own verdict — but `live` goes false,
    // because everything under a display:none node measures 0x0 and there is no
    // point paying for the rect.
    (function walk(el, live) {
        for (const child of el.children) {
            if (NEVER.has(child.tagName)) {
                // <body> is never marked, but it still needs a box: the banding
                // pass measures the wrapper chain under it against its area to
                // find where the page's regions actually live.
                if (live && child.tagName === 'BODY') {
                    let s = null;
                    try { s = getComputedStyle(child); } catch (e) {}
                    const g = measure(child, s);
                    if (g) geo.set(child, g);
                }
                walk(child, live);
                continue;
            }
            const v = verdict(child);
            if (v === HIDE) { toMark.push(child); continue; }
            if (v === PARK_IT) { toPark.push(child); walk(child, false); continue; }
            if (live) {
                const g = measure(child, lastStyle);
                if (g) geo.set(child, g);
            }
            walk(child, live);
        }
    })(document.documentElement, true);

    // ---- write pass ----
    const marked = toMark;
    for (const el of toMark) el.setAttribute(MARK, '');
    for (const el of toPark) el.setAttribute(PARK, '');
    for (const [el, g] of geo) el.setAttribute(GEO, g.join(' '));

    let html;
    try {
        const clone = document.documentElement.cloneNode(true);
        // A consent banner whose buttons were lifted into the proxy form goes
        // too, whether or not the vendor bothered to hide the original.
        for (const node of clone.querySelectorAll('[data-sic-consent-src]')) node.setAttribute(MARK, '');
        for (const node of clone.querySelectorAll('[' + MARK + ']')) {
            // Dropping a <form> outright would renumber every later form, while
            // the click path resolves buttons through `document.forms[n]` on the
            // *live* page. Leave an empty shell instead: FFON still counts it,
            // and an empty form emits no node, so it stays invisible to read.
            const forms = (node.tagName === 'FORM' ? [node] : [])
                .concat(Array.from(node.querySelectorAll('form')));
            if (!forms.length) { node.remove(); continue; }
            const shells = document.createDocumentFragment();
            for (let i = 0; i < forms.length; i++) shells.appendChild(document.createElement('form'));
            node.replaceWith(shells);
        }
        // A hidden menu is navigation worth keeping, but leaving it inline lets
        // it dominate the reading order: bpost's login dropdown sits before the
        // article and opens with a heading, and FFON nests everything after a
        // heading underneath it — so the whole page ended up filed under
        // "De voordelen van je bpost-account?". Park them after the content.
        const body = clone.querySelector('body');
        if (body) {
            for (const node of clone.querySelectorAll('[' + PARK + ']')) {
                // Only top-level parked nodes; a nested one travels with its parent.
                if (node.parentElement && node.parentElement.closest('[' + PARK + ']')) continue;
                node.removeAttribute(PARK);
                // A parked <form> would have to leave its own shell behind and
                // then be appended detached. It is display:none either way, so
                // leave it exactly where it is.
                if (node.tagName === 'FORM') continue;
                // Moving a subtree to the end of the document renumbers every
                // form after it, and the click path resolves buttons through
                // `document.forms[n]` on the live page. The prune has the same
                // problem and solves it with empty shells; parking never did,
                // because an actionable subtree is not marked hidden and so
                // never reached that code. Leave a shell for each form where it
                // was, and take the real ones out of the copy that travels: a
                // parked form is display:none, so it was never operable.
                const forms = Array.from(node.querySelectorAll('form'));
                if (forms.length && node.parentNode) {
                    const shells = document.createDocumentFragment();
                    for (let i = 0; i < forms.length; i++) shells.appendChild(document.createElement('form'));
                    node.parentNode.insertBefore(shells, node);
                    for (const f of forms) f.remove();
                }
                node.setAttribute(PIN, 'end');
                body.appendChild(node);
            }
            for (const node of clone.querySelectorAll('[' + PARK + ']')) node.removeAttribute(PARK);
        }
        // Group the page into regions and read them in the order they are laid
        // out, from the geometry stamped above.  Its own try/catch on purpose:
        // a throw escaping from here would leave `html` undefined and drop the
        // whole page onto the unpruned `page.content()` fallback.
        try {
            const cbody = clone.querySelector('body');
            if (cbody) {
                sicApply(cbody, sicPlan(cbody));
                sicWrapParked(cbody);
                sicReflow(cbody, 0);
            }
        } catch (e) {}
        rehomeIds(clone);
        // Geometry has done its work; ~30 bytes times every element is 100-200 kB
        // of noise to push through the parser otherwise.
        for (const node of clone.querySelectorAll('[' + GEO + ']')) node.removeAttribute(GEO);
        for (const node of clone.querySelectorAll('[' + PIN + ']')) node.removeAttribute(PIN);
        html = '<!DOCTYPE html>' + clone.outerHTML;
    } finally {
        for (const node of marked) node.removeAttribute(MARK);
        for (const node of document.querySelectorAll('[' + PARK + ']')) node.removeAttribute(PARK);
        // Every write in this script and its matching removal happen inside one
        // synchronous task, so a MutationObserver sees the records but never a
        // dirty DOM — and the submit paths that click the live page after this
        // find it exactly as the site left it.
        for (const node of geo.keys()) node.removeAttribute(GEO);
    }
    return html;

    // An empty anchor is how most pages mark a skip-link target
    // (`<a id="main-content"></a>`), and an element with no content emits no
    // FFON node — so the id, and with it the jump target, is simply lost.
    // Hand it to the next thing that does render. Clone-only: the live DOM
    // keeps its ids, so form selectors and site scripts are untouched.
    function rehomeIds(root) {
        const CONTROL = 'input, select, textarea, button';
        // Only these four are landmarks to FFON (html_landmark_name); <section>
        // and <article> are generic containers whose id falls through to the
        // first child that renders.
        const LANDMARK = 'main, nav, aside, footer';
        // Which ids something on the page actually jumps to. Only those are
        // worth restructuring for; every other stray id is left alone.
        const targeted = new Set();
        for (const a of root.querySelectorAll('a[href^="#"]')) {
            const frag = a.getAttribute('href').slice(1);
            if (frag) targeted.add(frag);
        }
        for (const el of root.querySelectorAll('[id]')) {
            if ((el.textContent || '').trim()) continue;
            try { if (el.querySelector('img, ' + CONTROL)) continue; } catch (e) { continue; }
            let next = el.nextElementSibling;
            while (next && !(next.textContent || '').trim()) next = next.nextElementSibling;
            if (!next || next.id) continue;
            // Never onto a control itself: FFON builds a control's selector from
            // its own id, and that selector is resolved against the *live*
            // page, where this id sits somewhere else. A container that merely
            // holds controls is fine — its id stays on the container.
            try { if (next.matches(CONTROL)) continue; } catch (e) { continue; }

            // A jump target has to *contain* what you jumped to read. Handing
            // the id to a plain container is not enough: FFON passes it down to
            // whichever node renders first, and bpost's content region opens
            // with two <h1>s in a row — so the id landed on an empty heading
            // while the article nested under the next one. Wrapping the region
            // in a landmark gives the link somewhere to arrive that holds the
            // content itself.
            let host = next;
            if (targeted.has(el.id)) {
                let isLandmark = false;
                try { isLandmark = next.matches(LANDMARK); } catch (e) {}
                if (!isLandmark && next.parentNode) {
                    // <main>, because only nav/main/aside/footer are landmarks
                    // to FFON — a <section> is generic, so the id would fall
                    // straight through to the first child that renders, which
                    // is the empty <h1> we are trying to get past.
                    const doc = root.ownerDocument || document;
                    const sec = doc.createElement('main');
                    next.parentNode.insertBefore(sec, next);
                    // Everything from the target onwards belongs to it: that is
                    // what "skip to content" means, and it stops the landmark
                    // being a single-child wrapper that FFON collapses again.
                    // It stops at the next landmark, though — a <footer> after
                    // the target is not part of the main content, and swallowing
                    // one (the site's own, or one the banding pass synthesized)
                    // files the whole end of the page under "main content".
                    let node = sec.nextSibling;
                    while (node) {
                        if (node.nodeType === 1 && node.matches('footer, nav, aside, main')) break;
                        const after = node.nextSibling;
                        sec.appendChild(node);
                        node = after;
                    }
                    // A lone plain container in there is still a wrapper; lift
                    // its children so the landmark holds real structure.
                    unwrapSingleWrapper(sec);
                    host = sec;
                }
            }
            host.id = el.id;
            el.removeAttribute('id');
        }
    }
"##;

/// The parts of the page and how they lie to each other.
pub const LAYOUT_JS: &'static str = r##"
    // Stamp geometry over a live tree the way the read pass does, for the band
    // plan test seam only.  The production path fuses this into its own walk so
    // it never pays for a second getComputedStyle; this exists so a test can
    // ask for a plan without running the prune.
    function sicStampLive(root) {
        const stamped = [];
        (function walk(el) {
            for (const child of el.children) {
                if (NEVER_MARK.has(child.tagName)) continue;
                let s = null;
                try { s = getComputedStyle(child); } catch (e) {}
                const g = measure(child, s);
                if (g) { child.setAttribute(GEO, g.join(' ')); stamped.push(child); }
                walk(child);
            }
        })(root);
        return stamped;
    }

    // A landmark holding one plain container is still a wrapper: lift the
    // children so it holds real structure. Shared with `rehomeIds`, which needs
    // exactly the same thing for the <main> it synthesizes.
    function unwrapSingleWrapper(el) {
        while (el.children.length === 1 &&
               /^(DIV|SECTION|ARTICLE)$/.test(el.children[0].tagName)) {
            const only = el.children[0];
            while (only.firstChild) el.insertBefore(only.firstChild, only);
            only.remove();
        }
    }

    const R_NONE = 0, R_NAV = 1, R_MAIN = 2, R_FOOTER = 3, R_ASIDE = 4;
    const ROLE_TAG = ['', 'nav', 'main', 'footer', 'aside'];
    const ROLE_NAME = ['none', 'nav', 'main', 'footer', 'aside'];
    // Pins: an overlay is not in the flow, so it has no honest place in the
    // band order. Send it where it belongs and keep it there.
    const PIN_NONE = 0, PIN_FRONT = -1, PIN_END = 1;

    function sicGeo(el) {
        const a = el.getAttribute(GEO);
        if (!a) return null;
        const p = a.split(' ');
        if (p.length < 5) return null;
        const g = { x: +p[0], y: +p[1], w: +p[2], h: +p[3], f: +p[4] };
        for (const k of ['x','y','w','h','f']) if (!isFinite(g[k])) return null;
        return g;
    }

    function sicKids(el) {
        const out = [];
        for (const c of el.children) if (!NEVER_MARK.has(c.tagName)) out.push(c);
        return out;
    }

    // The author's own markup, when there is any. Nothing here gets wrapped
    // again, and a page with two or more of these is left alone entirely.
    function sicNativeRole(el) {
        switch (el.tagName) {
            case 'NAV': case 'HEADER': return R_NAV;
            case 'MAIN': return R_MAIN;
            case 'FOOTER': return R_FOOTER;
            case 'ASIDE': return R_ASIDE;
        }
        switch ((el.getAttribute('role') || '').toLowerCase()) {
            case 'navigation': case 'banner': return R_NAV;
            case 'main': return R_MAIN;
            case 'contentinfo': return R_FOOTER;
            case 'complementary': return R_ASIDE;
        }
        return null;
    }

    // Real pages are body > div#app > div > … as often as they are a flat run.
    // Descend through wrappers that are just holding the page.
    function sicBandHost(body) {
        let host = body;
        for (let depth = 0; depth < 8; depth++) {
            const kids = sicKids(host);
            if (kids.length !== 1) break;
            const k = kids[0];
            if (!/^(DIV|SECTION|ARTICLE|MAIN)$/.test(k.tagName)) break;
            const hg = sicGeo(host), kg = sicGeo(k);
            if (!hg || !kg || hg.w * hg.h <= 0) break;
            if (kg.w * kg.h < 0.9 * hg.w * hg.h) break;
            host = k;
        }
        return host;
    }

    // Reading order: cluster into horizontal bands, then read each band across.
    // Items whose vertical extents overlap share a band, which keeps a row of
    // unequal-height cards together while a clean vertical gap splits them.
    function sicVisualOrder(items, rtl) {
        const sized = items.filter(it => it.g && it.g.w > 0 && it.g.h > 0 && !it.pin);
        if (!sized.length) return items.slice();
        const byY = sized.slice().sort((a, b) => a.g.y - b.g.y || a.i - b.i);
        let band = 0, bottom = -Infinity;
        for (const it of byY) {
            const tol = Math.min(0.5 * it.g.h, 8);
            if (it.g.y >= bottom - tol) { band++; bottom = it.g.y + it.g.h; }
            else bottom = Math.max(bottom, it.g.y + it.g.h);
            it.band = band;
        }
        // Anything with no box of its own — screen-reader-only text, an
        // absolutely positioned badge, an overlay staying put — rides along
        // with the last sized sibling before it rather than being flung to an
        // end. Its source position relative to that sibling is preserved.
        let carry = null;
        for (const it of items) {
            if (it.band !== undefined) { carry = it; continue; }
            const ref = carry || byY[0];
            it.band = ref.band;
            it.carryX = ref.g.x;
            it.carryR = ref.g.x + ref.g.w;
        }
        const keyX = it => (it.g && it.g.w > 0 && !it.pin)
            ? (rtl ? -(it.g.x + it.g.w) : it.g.x)
            : (rtl ? -it.carryR : it.carryX);
        const out = items.slice();
        out.sort((a, b) =>
            (a.pin - b.pin) || (a.band - b.band) || (keyX(a) - keyX(b)) || (a.i - b.i));
        return out;
    }

    // Boxes that overlap by most of the smaller one are not laid out relative to
    // each other; keep whatever order the markup gave them.
    function sicOverlaps(a, b) {
        if (!a || !b || a.w <= 0 || b.w <= 0) return false;
        const ox = Math.min(a.x + a.w, b.x + b.w) - Math.max(a.x, b.x);
        const oy = Math.min(a.y + a.h, b.y + b.h) - Math.max(a.y, b.y);
        if (ox <= 0 || oy <= 0) return false;
        return ox * oy >= 0.6 * Math.min(a.w * a.h, b.w * b.h);
    }

    function sicProbe(el) {
        let links = 0, textLen = 0, hasH1 = false;
        try { links = el.querySelectorAll('a[href], [role="link"]').length; } catch (e) {}
        try { textLen = (el.textContent || '').trim().length; } catch (e) {}
        try { hasH1 = el.tagName === 'H1' || !!el.querySelector('h1'); } catch (e) {}
        return { links, textLen, hasH1,
                 linkDense: links >= 4 && textLen / links < 80 };
    }

    const NAV_HINT = /header|masthead|topbar|navbar|menu/i;
    const FOOT_HINT = /footer|colophon|legal/i;
    function sicHint(el, re) {
        return re.test(el.tagName) || re.test(el.className || '') || re.test(el.id || '');
    }

"##;

/// Decides what each part of the page is, and in which order they are read.
pub const ORDER_JS: &'static str = r##"    // Decide what the page's regions are and in what order they read.  Pure: it
    // returns a description, and `sicApply` performs it.  That split is what
    // makes the decisions assertable from a test.
    function sicPlan(body) {
        const plan = { host: null, order: null, groups: [], items: [], declined: null };
        if (!body) { plan.declined = 'no body'; return plan; }
        // A consent gate is in flight. The page it becomes is built in Rust
        // from labels, and its proxy forms must keep document order.
        if (body.querySelector('button[id^="sic-consent-"]')) {
            plan.declined = 'gate in flight';
            return plan;
        }
        // On a page this size the rect reads start to cost real time and the
        // signal is poor anyway. Read it the way it was written.
        let total = 0;
        try { total = document.querySelectorAll('*').length; } catch (e) {}
        if (total > 25000) { plan.declined = 'document too large'; return plan; }
        const host = sicBandHost(body);
        plan.host = host.tagName.toLowerCase() + (host.id ? '#' + host.id : '');
        const kids = sicKids(host);
        if (kids.length < 3) { plan.declined = 'too few regions'; return plan; }
        if (kids.length > 200) { plan.declined = 'too many regions'; return plan; }

        const vw = window.innerWidth || 1920;
        const vh = window.innerHeight || 1080;
        let DH = vh;
        try { DH = Math.max(document.documentElement.scrollHeight, vh); } catch (e) {}

        let rtl = false;
        const hg = sicGeo(host);
        if (hg && (hg.f & F_RTL)) rtl = true;

        const items = [];
        let missing = 0;
        for (let i = 0; i < kids.length; i++) {
            const el = kids[i], g = sicGeo(el);
            const parked = el.getAttribute(PIN) === 'end';
            // A parked menu is display:none, so it has no box by definition.
            // That is not missing geometry, it is a region already placed.
            if (!parked && (!g || g.w <= 0 || g.h <= 0)) missing++;
            const it = { i, el, g, role: R_NONE, native: sicNativeRole(el),
                         pin: parked ? PIN_END : PIN_NONE };
            // A fixed overlay has no place in the flow. A full-width strip at
            // the top reads first; one at the bottom is a cookie bar or a chat
            // widget and reads last — never as the page's footer. Anything else
            // fixed is a modal: leave it exactly where it is.
            if (g && (g.f & F_FIXED)) {
                if (g.y < 0.15 * vh && g.w >= 0.6 * vw) { it.pin = PIN_FRONT; it.role = R_NAV; }
                else if (g.y + g.h > 0.85 * vh) it.pin = PIN_END;
            }
            items.push(it);
        }
        if (missing > 0.4 * kids.length) { plan.declined = 'not enough geometry'; return plan; }

        let ordered = sicVisualOrder(items, rtl);
        // Overlapping siblings are not in flow relative to each other.
        for (let n = 1; n < ordered.length; n++) {
            const a = ordered[n - 1], b = ordered[n];
            if (a.i > b.i && sicOverlaps(a.g, b.g)) { ordered[n - 1] = b; ordered[n] = a; }
        }

        // Reordering must never change the relative order of anything holding a
        // <form>: form_index is a document-order count, resolved against the
        // live page as document.forms[n]. Wrapping cannot break that — it keeps
        // preorder — but moving a region can, so check before moving.
        const formy = kids.map(k => {
            try { return k.tagName === 'FORM' || !!k.querySelector('form'); } catch (e) { return true; }
        });
        const srcForms = [], newForms = [];
        for (let i = 0; i < kids.length; i++) if (formy[i]) srcForms.push(i);
        for (const it of ordered) if (formy[it.i]) newForms.push(it.i);
        const formSafe = srcForms.length === newForms.length
            && srcForms.every((v, n) => v === newForms[n]);
        if (!formSafe) {
            plan.declined = 'reorder would renumber forms';
            ordered = items.slice();
        }

        const perm = ordered.map(it => it.i);
        plan.order = perm.some((v, n) => v !== n) ? perm : null;

        // ---- roles, over the order the page actually reads in ----
        const natives = items.filter(it => it.native !== null).length;
        if (natives >= 2) {
            plan.declined = plan.declined || 'author already marked up landmarks';
            plan.items = ordered.map(it => sicItemReport(it));
            return plan;
        }
        for (const it of ordered) if (it.native !== null) it.role = it.native;

        const probes = new Map();
        for (const it of ordered) if (it.g && it.g.w > 0) probes.set(it, sicProbe(it.el));
        const probeOf = it => probes.get(it) || { links: 0, textLen: 0, hasH1: false, linkDense: false };

        // Footer: a trailing run only. A link-dense block in the middle of a
        // page is a card grid, not the colophon.
        const footTop = DH - Math.max(0.25 * DH, 600);
        for (let n = ordered.length - 1; n >= 0; n--) {
            const it = ordered[n];
            if (it.pin === PIN_END) continue;
            if (it.role !== R_NONE || it.native !== null) break;
            const g = it.g, p = probeOf(it);
            if (!g || g.y < footTop || g.w < 0.6 * vw) break;
            if (!(p.linkDense || sicHint(it.el, FOOT_HINT))) break;
            it.role = R_FOOTER;
        }
        // Nav: a leading run only.
        const navBottom = Math.max(0.10 * DH, 200);
        for (const it of ordered) {
            if (it.pin === PIN_FRONT) continue;
            if (it.role !== R_NONE || it.native !== null) break;
            const g = it.g, p = probeOf(it);
            if (!g || g.y > navBottom || g.w < 0.6 * vw || g.h > 0.25 * vh) break;
            if (!(p.linkDense || sicHint(it.el, NAV_HINT))) break;
            it.role = R_NAV;
        }
        // Main: the dominant remaining region, if there is one.
        let best = null, bestScore = -1, maxArea = 0, maxText = 0;
        for (const it of ordered) {
            if (it.role !== R_NONE || it.native !== null || it.pin) continue;
            if (!it.g) continue;
            maxArea = Math.max(maxArea, it.g.w * it.g.h);
            maxText = Math.max(maxText, probeOf(it).textLen);
        }
        for (const it of ordered) {
            if (it.role !== R_NONE || it.native !== null || it.pin) continue;
            if (!it.g) continue;
            const p = probeOf(it);
            let score = maxArea > 0 ? (it.g.w * it.g.h) / maxArea : 0;
            if (p.hasH1) score += 2;
            if (maxText > 0 && p.textLen === maxText) score += 1;
            if (score > bestScore) { bestScore = score; best = it; }
        }
        if (best && best.g.w * best.g.h >= 0.15 * vw * DH) {
            best.role = R_MAIN;
            // Complementary: a narrow column running alongside the main one.
            if (best.g.w >= 0.5 * vw) {
                for (const it of ordered) {
                    if (it.role !== R_NONE || it.native !== null || it.pin || !it.g) continue;
                    if (it.g.w > 0.35 * vw) continue;
                    // A complementary region is a *column* running beside the
                    // content. A one-line skip link is narrow too, and calling
                    // it "complementary" is worse than saying nothing.
                    if (it.g.h < 0.25 * best.g.h) continue;
                    const top = Math.max(it.g.y, best.g.y);
                    const bot = Math.min(it.g.y + it.g.h, best.g.y + best.g.h);
                    if (bot - top > 0.5 * it.g.h) it.role = R_ASIDE;
                }
            }
        }

        // Contiguous runs of the same role, in reading order. Contiguous is not
        // a detail: wrapping a run in place preserves document preorder, and
        // that is the whole reason this cannot renumber a form.
        for (let n = 0; n < ordered.length; ) {
            const role = ordered[n].role;
            if (role === R_NONE || ordered[n].native !== null) { n++; continue; }
            let m = n;
            while (m + 1 < ordered.length
                   && ordered[m + 1].role === role
                   && ordered[m + 1].native === null) m++;
            plan.groups.push({ role, roleName: ROLE_NAME[role], tag: ROLE_TAG[role],
                               from: n, to: m });
            n = m + 1;
        }
        plan.items = ordered.map(it => sicItemReport(it));
        return plan;
    }

    function sicItemReport(it) {
        let label = it.el.tagName.toLowerCase();
        if (it.el.id) label += '#' + it.el.id;
        else if (typeof it.el.className === 'string' && it.el.className.trim())
            label += '.' + it.el.className.trim().split(/\s+/)[0];
        return { i: it.i, label, role: ROLE_NAME[it.role], pin: it.pin,
                 x: it.g ? it.g.x : null, y: it.g ? it.g.y : null,
                 w: it.g ? it.g.w : null, h: it.g ? it.g.h : null };
    }
"##;

/// Puts the page in that order.
pub const REFLOW_JS: &'static str = r##"
    const REFLOW_TAGS = /^(BODY|DIV|SECTION|ARTICLE|MAIN|HEADER|FOOTER|ASIDE|NAV)$/;
    // Containers whose child order is meaning, not layout. A list is a list in
    // the order the author wrote it, a table row is not a band of cards, and a
    // heading or paragraph holds a sentence.
    const REFLOW_BLOCKED = 'form, table, ul, ol, dl, select, label, fieldset, p,' +
        ' pre, h1, h2, h3, h4, h5, h6, blockquote, figure, picture';

    function sicReflowEligible(host) {
        if (!REFLOW_TAGS.test(host.tagName)) return false;
        const g = sicGeo(host);
        if (g && (g.f & (F_NOSORT | F_INLINE))) return false;
        try { if (host.closest(REFLOW_BLOCKED)) return false; } catch (e) { return false; }
        // Mixed inline flow: a container holding bare text between its elements
        // is a sentence, and sorting its parts by position scrambles it.
        for (const n of host.childNodes) {
            if (n.nodeType === 3 && n.textContent && n.textContent.trim()) return false;
        }
        return true;
    }

    // Sort a container's children into the order they are laid out, wherever
    // that disagrees with the order they were written in.  Recurses a few
    // levels: deeper than this the returns fall off and the risk does not.
    function sicReflow(host, depth) {
        if (depth > 4) return;
        const kids = sicKids(host);
        if (kids.length >= 2 && kids.length <= 60 && sicReflowEligible(host)) {
            // Anything holding a <form> keeps source order, full stop.
            // form_index is a document-order count resolved against the live
            // page, and no reading-order gain is worth filling the wrong field.
            let formy = false;
            for (const k of kids) {
                try {
                    if (k.tagName === 'FORM' || k.querySelector('form')) { formy = true; break; }
                } catch (e) { formy = true; break; }
            }
            if (!formy) {
                let missing = 0;
                const items = kids.map((el, i) => {
                    const g = sicGeo(el);
                    if (!g || g.w <= 0 || g.h <= 0) missing++;
                    return { i, el, g, pin: PIN_NONE };
                });
                if (missing <= 0.4 * kids.length) {
                    const hg = sicGeo(host);
                    const ordered = sicVisualOrder(items, !!(hg && (hg.f & F_RTL)));
                    // Identity permutation: touch nothing. Most of the web is
                    // written in the order it renders, and a no-op here means
                    // no DOM churn and nothing to go wrong.
                    if (ordered.some((it, n) => it.i !== n)) {
                        for (const it of ordered) host.appendChild(it.el);
                    }
                }
            }
        }
        for (const k of sicKids(host)) sicReflow(k, depth + 1);
    }

    // The parked menus end up as one contiguous run at the end of the body.
    // Give them a landmark of their own: they are hidden navigation by
    // construction, so `navigation` is honest, and — the real reason — a
    // landmark is the only boundary that stops a menu's heading swallowing
    // everything after it. Runs after the banding pass, so the wrapper it adds
    // is not counted as markup the author supplied.
    function sicWrapParked(body) {
        const parked = [];
        for (const el of sicKids(body)) {
            if (el.getAttribute(PIN) === 'end') parked.push(el);
            else if (parked.length) return false;  // not a trailing run; leave it
        }
        if (!parked.length) return false;
        for (const el of parked) el.removeAttribute(PIN);
        // Already bounded by the site's own markup. Wrapping these would only
        // stack a navigation inside a navigation and name it twice.
        if (parked.every(el => sicNativeRole(el) !== null)) return false;
        let wrap = document.createElement('nav');
        body.insertBefore(wrap, parked[0]);
        for (const el of parked) wrap.appendChild(el);
        unwrapSingleWrapper(wrap);
        // Never stack a navigation inside a navigation. If what came out is
        // already one, theirs is the better named of the two — a menu the site
        // marked up itself carries its own label.
        while (wrap.children.length === 1 && wrap.children[0].tagName === 'NAV') {
            const inner = wrap.children[0];
            wrap.replaceWith(inner);
            wrap = inner;
        }
        return true;
    }

    // Perform what `sicPlan` described.  Returns true if anything changed.
    function sicApply(body, plan) {
        if (!body || (!plan.order && !plan.groups.length)) return false;
        const host = sicBandHost(body);
        let kids = sicKids(host);
        if (plan.order) {
            if (plan.order.length !== kids.length) return false;
            const moved = plan.order.map(i => kids[i]);
            for (const el of moved) host.appendChild(el);
            kids = moved;
        }
        for (const grp of plan.groups) {
            if (grp.from < 0 || grp.to >= kids.length) continue;
            const wrap = document.createElement(grp.tag);
            const first = kids[grp.from];
            if (!first.parentNode) continue;
            first.parentNode.insertBefore(wrap, first);
            for (let n = grp.from; n <= grp.to; n++) wrap.appendChild(kids[n]);
            unwrapSingleWrapper(wrap);
        }
        return true;
    }
"##;

/// Tells the order that the page would be put in, and changes nothing.
pub const PLAN_JS: &'static str = r##"
    sicStampLive(document.documentElement);
    return JSON.stringify(sicPlan(document.body));
"##;

/// Closes a script.
pub const PRUNE_JS_END: &'static str = r##"
})()"##;

/// The script that reads the page. The passes over the layout stand
/// before the one that uses them: a constant of a script cannot be used before
/// it is declared.
pub fn prune_hidden_script() -> (r: String)
    ensures
        r@ == PRUNE_JS_HEAD@ + LAYOUT_JS@ + ORDER_JS@ + REFLOW_JS@ + PRUNE_JS_BODY@ + PRUNE_JS_END@,
{
    let mut r = PRUNE_JS_HEAD.to_owned();
    r.append(LAYOUT_JS);
    r.append(ORDER_JS);
    r.append(REFLOW_JS);
    r.append(PRUNE_JS_BODY);
    r.append(PRUNE_JS_END);
    r
}

/// The script that tells the order of the page as JSON.
pub fn band_plan_js() -> (r: String)
    ensures
        r@ == PRUNE_JS_HEAD@ + LAYOUT_JS@ + ORDER_JS@ + REFLOW_JS@ + PLAN_JS@ + PRUNE_JS_END@,
{
    let mut r = PRUNE_JS_HEAD.to_owned();
    r.append(LAYOUT_JS);
    r.append(ORDER_JS);
    r.append(REFLOW_JS);
    r.append(PLAN_JS);
    r.append(PRUNE_JS_END);
    r
}

/// What to do with what the reading script gave: the source it made of the
/// page, or `None` to take the page as it is. A page that defeats the script
/// must still be readable.
pub fn settled_source(prune: bool, pruned: Option<String>) -> (r: Option<String>)
    ensures
        match pruned {
            Some(html) => if prune && html@.len() > 0 {
                r matches Some(h) && h@ == html@
            } else {
                r is None
            },
            None => r is None,
        },
{
    match pruned {
        Some(html) => if prune && !html.as_str().is_empty() {
            Some(html)
        } else {
            None
        },
        None => None,
    }
}

} // verus!
