use vstd::prelude::*;
use crate::profile::FingerprintConfig;
use crate::text::{chars_of, decimal, decimal_chars, join_seqs, push_chars, push_str, string_of, strings};

verus! {

/// The fingerprint script up to the user agent.
pub const SPOOF_BEFORE_UA: &'static str = r#"
(function() {
    const UA = "#;

/// The fingerprint script between the user agent and the platform.
pub const SPOOF_BEFORE_PLATFORM: &'static str = r#";
    const PLATFORM = "#;

/// The fingerprint script between the platform and the language.
pub const SPOOF_BEFORE_LANG: &'static str = r#";
    const LANG = "#;

/// The fingerprint script between the language and the resolution.
pub const SPOOF_BEFORE_RESOLUTION: &'static str = r#";
    const RES = "#;

/// The fingerprint script between the resolution and the WebGL vendor.
pub const SPOOF_BEFORE_VENDOR: &'static str = r#";
    const VENDOR = "#;

/// The fingerprint script between the WebGL vendor and the WebGL renderer.
pub const SPOOF_BEFORE_RENDERER: &'static str = r#";
    const RENDERER = "#;

/// The fingerprint script between the WebGL renderer and the time zone.
pub const SPOOF_BEFORE_TIMEZONE: &'static str = r#";
    const TZ = "#;

/// The fingerprint script between the time zone and the geolocation.
pub const SPOOF_BEFORE_GEO: &'static str = r#";
    const GEO = "#;

/// The fingerprint script between the geolocation and the hardware concurrency.
pub const SPOOF_BEFORE_CONCURRENCY: &'static str = r#";
    const HARDWARE_CONCURRENCY = "#;

/// The fingerprint script between the hardware concurrency and the device memory.
pub const SPOOF_BEFORE_MEMORY: &'static str = r#";
    const DEVICE_MEMORY = "#;

/// The fingerprint script between the device memory and the font list.
pub const SPOOF_BEFORE_FONTS: &'static str = r#";
    const FONTS = "#;

/// The fingerprint script between the font list and the canvas-noise switch.
pub const SPOOF_BEFORE_CANVAS: &'static str = r#";
    const CANVAS_NOISE = "#;

/// The fingerprint script between the canvas-noise switch and the audio-noise switch.
pub const SPOOF_BEFORE_AUDIO: &'static str = r#";
    const AUDIO_NOISE = "#;

/// The rest of the fingerprint script, after the audio-noise switch.
pub const SPOOF_TAIL: &'static str = r#";

    // 1. Navigator overrides
    Object.defineProperty(navigator, 'userAgent', { get: () => UA, configurable: false });
    Object.defineProperty(navigator, 'platform', { get: () => PLATFORM, configurable: false });
    Object.defineProperty(navigator, 'language', { get: () => LANG, configurable: false });
    Object.defineProperty(navigator, 'languages', { get: () => [LANG, 'en-US', 'en'], configurable: false });
    Object.defineProperty(navigator, 'hardwareConcurrency', { get: () => HARDWARE_CONCURRENCY, configurable: false });
    Object.defineProperty(navigator, 'deviceMemory', { get: () => DEVICE_MEMORY, configurable: false });
    Object.defineProperty(navigator, 'maxTouchPoints', { get: () => 0, configurable: false });

    // 2. Remove webdriver
    Object.defineProperty(navigator, 'webdriver', { get: () => false, configurable: false });

    // 3. WebGL spoof
    const getParameterOrig = WebGLRenderingContext.prototype.getParameter;
    WebGLRenderingContext.prototype.getParameter = function(p) {
        if (p === 37445) return VENDOR;  // UNMASKED_VENDOR_WEBGL
        if (p === 37446) return RENDERER;  // UNMASKED_RENDERER_WEBGL
        return getParameterOrig.call(this, p);
    };
    const getParameterOrig2 = WebGL2RenderingContext.prototype.getParameter;
    WebGL2RenderingContext.prototype.getParameter = function(p) {
        if (p === 37445) return VENDOR;
        if (p === 37446) return RENDERER;
        return getParameterOrig2.call(this, p);
    };

    // 4. Canvas noise
    if (CANVAS_NOISE) {
        const toDataURLOrig = HTMLCanvasElement.prototype.toDataURL;
        HTMLCanvasElement.prototype.toDataURL = function() {
            const r = toDataURLOrig.apply(this, arguments);
            return r.substring(0, r.length - 8) + Math.random().toString(36).substring(2, 10);
        };
        const toBlobOrig = HTMLCanvasElement.prototype.toBlob;
        HTMLCanvasElement.prototype.toBlob = function(cb, type, quality) {
            toBlobOrig.call(this, async function(b) {
                if (b) {
                    const arr = new Uint8Array(await b.arrayBuffer());
                    arr[arr.length-1] ^= 1;
                    cb(new Blob([arr], {type: b.type}));
                } else { cb(b); }
            }, type, quality);
        };
        const getImageDataOrig = CanvasRenderingContext2D.prototype.getImageData;
        CanvasRenderingContext2D.prototype.getImageData = function(x, y, w, h) {
            const data = getImageDataOrig.call(this, x, y, w, h);
            for (let i = 0; i < data.data.length; i += 4) {
                data.data[i] ^= 1; data.data[i+1] ^= 1; data.data[i+2] ^= 1;
            }
            return data;
        };
    }

    // 5. Audio noise
    if (AUDIO_NOISE) {
        const getChannelDataOrig = AudioBuffer.prototype.getChannelData;
        AudioBuffer.prototype.getChannelData = function(c) {
            const data = getChannelDataOrig.call(this, c);
            const noise = new Float32Array(data.length);
            for (let i = 0; i < data.length; i += 100) noise[i] = data[i] * 0.0001;
            return noise;
        };
    }

    // 6. Screen
    const parts = RES.split('x').map(Number);
    if (parts.length === 2) {
        const sw = parts[0], sh = parts[1];
        Object.defineProperty(screen, 'width', { get: () => sw, configurable: false });
        Object.defineProperty(screen, 'height', { get: () => sh, configurable: false });
        Object.defineProperty(screen, 'availWidth', { get: () => sw, configurable: false });
        Object.defineProperty(screen, 'availHeight', { get: () => sh-40, configurable: false });
        Object.defineProperty(screen, 'colorDepth', { get: () => 24, configurable: false });
        Object.defineProperty(screen, 'pixelDepth', { get: () => 24, configurable: false });
    }

    // 7. Timezone via Intl
    try {
        const dtf = Intl.DateTimeFormat;
        Intl.DateTimeFormat = function(locale, opts) {
            return new dtf(TZ.replace('_','/'), opts);
        };
    } catch(e){}

    // 8. Geolocation
    if (GEO) {
        const parts2 = GEO.split(',').map(Number);
        if (parts2.length === 2) {
            const geo = navigator.geolocation;
            geo.getCurrentPosition = function(success, error, opts) {
                success({ coords: { latitude: parts2[0], longitude: parts2[1], accuracy: 100, altitude: null, altitudeAccuracy: null, heading: null, speed: null }, timestamp: Date.now() });
            };
            geo.watchPosition = function(success, error, opts) {
                success({ coords: { latitude: parts2[0], longitude: parts2[1], accuracy: 100, altitude: null, altitudeAccuracy: null, heading: null, speed: null }, timestamp: Date.now() });
                return 0;
            };
        }
    }

    // 9. Fonts spoofing (override enumerable)
    try {
        if (document.fonts && document.fonts.ready) {
            document.fonts.ready.then(function() {
                const originalCheck = document.fonts.check;
                document.fonts.check = function(font) { return true; };
            });
        }
    } catch(e){}

    // 10. Plugins
    Object.defineProperty(navigator, 'plugins', { get: () => [1,2,3,4,5], configurable: false });
    Object.defineProperty(navigator, 'mimeTypes', { get: () => [1,2,3,4], configurable: false });
})();
"#;

/// The sign-in script up to the e-mail.
pub const LOGIN_BEFORE_EMAIL: &'static str = r#"
(async () => {
    const wait = (ms) => new Promise(r => setTimeout(r, ms));
    const findVisible = (sel, root = document) => {
        const el = root.querySelector(sel);
        if (el) {
            const rect = el.getBoundingClientRect();
            return rect.width > 0 && rect.height > 0 ? el : null;
        }
        return null;
    };
    const typeText = (field, text) => {
        field.focus();
        field.select();
        const nativeInputValueSetter = Object.getOwnPropertyDescriptor(window.HTMLInputElement.prototype, 'value').set;
        nativeInputValueSetter.call(field, '');
        field.dispatchEvent(new Event('input', { bubbles: true }));
        field.dispatchEvent(new Event('change', { bubbles: true }));
        for (const ch of text) {
            nativeInputValueSetter.call(field, field.value + ch);
            field.dispatchEvent(new Event('input', { bubbles: true }));
            field.dispatchEvent(new Event('keydown', { bubbles: true }));
            field.dispatchEvent(new Event('keyup', { bubbles: true }));
        }
        field.dispatchEvent(new Event('change', { bubbles: true }));
    };

    // Step 1: Fill email
    const emailField = findVisible('input[type="email"]') || findVisible('#identifierId') || findVisible('input[name="identifier"]');
    if (emailField) {
        typeText(emailField, "#;

/// The sign-in script between the e-mail and the password.
pub const LOGIN_BEFORE_PASSWORD: &'static str = r#");
        await wait(1000);
        const nextBtn = document.querySelector('#identifierNext') || document.querySelector('[jscontroller="soHxf"]') || document.querySelector('button[jsname="V67aGc"]') || document.querySelector('span[jsname="V67aGc"]');
        if (nextBtn) { nextBtn.click(); }
        else { 
            const form = emailField.closest('form');
            if (form) { 
                const ev = new KeyboardEvent('keydown', { key: 'Enter', keyCode: 13, bubbles: true });
                emailField.dispatchEvent(ev);
            }
        }
    }

    // Step 2: Wait for password page and fill
    for (let attempts = 0; attempts < 30; attempts++) {
        await wait(1000);
        const passField = findVisible('input[type="password"]') || findVisible('input[name="Passwd"]') || findVisible('#Passwd');
        if (passField) {
            typeText(passField, "#;

/// The rest of the sign-in script, after the password.
pub const LOGIN_TAIL: &'static str = r#");
            await wait(1000);
            const passBtn = document.querySelector('#passwordNext') || document.querySelector('button[jsname="V67aGc"]') || document.querySelector('[jscontroller="soHxf"]');
            if (passBtn) passBtn.click();
            break;
        }
    }
})();
"#;

/// The comment script up to the first copy of the text.
pub const COMMENT_BEFORE_TEXT: &'static str = r#"
(async () => {
    const wait = (ms) => new Promise(r => setTimeout(r, ms));
    const SELS = [
        '#live-chat-input .yt-live-chat-text-input-field-renderer',
        '#input.yt-live-chat-text-input-field-renderer',
        '#contenteditable-root',          // live-chat (Polymer)
        'yt-formatted-string#contenteditable-root',
        '#stamina-comment-text-input',    // fallback comment box
        'ytd-commentbox #contenteditable-root',
        '#contenteditable-textarea'
    ];
    let el = null;
    for (const s of SELS) {
        const found = document.querySelector(s);
        if (found && found.offsetParent !== null) { el = found; break; }
    }
    if (!el) return "NO_INPUT";

    el.focus();
    // insere o texto respeitando o React/Polymer
    const setter = Object.getOwnPropertyDescriptor(window.HTMLElement.prototype, 'innerText');
    if (setter && setter.set) setter.set.call(el, "#;

/// The comment script between the two copies of the text.
pub const COMMENT_BETWEEN_TEXTS: &'static str = r#");
    else el.innerText = "#;

/// The rest of the comment script, after the second copy of the text.
pub const COMMENT_TAIL: &'static str = r#";

    el.dispatchEvent(new Event('input', { bubbles: true }));
    el.dispatchEvent(new Event('change', { bubbles: true }));
    await wait(400);

    // tenta enviar: Enter (live-chat) ou botão
    const sendBtns = [
        '#send-button button',
        'button[aria-label="Enviar"]',
        'yt-button-renderer#send-button button',
        'ytd-button-renderer#submit-button button'
    ];
    for (const b of sendBtns) {
        const btn = document.querySelector(b);
        if (btn && btn.offsetParent !== null) { btn.click(); return "SENT_BUTTON"; }
    }
    const ev = new KeyboardEvent('keydown', { key: 'Enter', keyCode: 13, bubbles: true, cancelable: true });
    el.dispatchEvent(ev);
    return "SENT_ENTER";
})();
"#;

/// The lower-case hexadecimal digit of `d` (below 16).
pub open spec fn hex_digit(d: u32) -> char {
    if d < 10 {
        ((d + 48) as u8) as char
    } else {
        ((d + 87) as u8) as char
    }
}

/// How `serde_json` writes one character inside a JSON string: `"` and `\` after a backslash;
/// backspace, tab, line feed, form feed and carriage return as `\b`, `\t`, `\n`, `\f`, `\r`;
/// the other characters below U+0020 as `\u00` and two lower-case hex digits; every other
/// character as it is.
pub open spec fn json_char(c: char) -> Seq<char> {
    if c == '"' {
        seq!['\\', '"']
    } else if c == '\\' {
        seq!['\\', '\\']
    } else if c == '\u{8}' {
        seq!['\\', 'b']
    } else if c == '\t' {
        seq!['\\', 't']
    } else if c == '\n' {
        seq!['\\', 'n']
    } else if c == '\u{c}' {
        seq!['\\', 'f']
    } else if c == '\r' {
        seq!['\\', 'r']
    } else if (c as u32) < 0x20 {
        seq!['\\', 'u', '0', '0', hex_digit((c as u32) / 16), hex_digit((c as u32) % 16)]
    } else {
        seq![c]
    }
}

/// The characters of `s` as `serde_json` writes them inside a JSON string.
pub open spec fn json_escaped(s: Seq<char>) -> Seq<char>
    decreases s.len(),
{
    if s.len() == 0 {
        Seq::empty()
    } else {
        json_escaped(s.drop_last()) + json_char(s.last())
    }
}

/// The JSON text `serde_json` writes for a string: the escaped string between quotes.
pub open spec fn json_quoted(s: Seq<char>) -> Seq<char> {
    seq!['"'] + json_escaped(s) + seq!['"']
}

/// The compact JSON text `serde_json` writes for a list of strings: each string as JSON text,
/// separated by `,`, between brackets.
pub open spec fn json_string_list(items: Seq<Seq<char>>) -> Seq<char> {
    seq!['['] + join_seqs(items.map_values(|s: Seq<char>| json_quoted(s)), seq![',']) + seq![']']
}

/// `serde_json::to_string(s)`: a string as JSON text, as `json_quoted` states it. Writing a
/// string cannot fail.
#[verifier::external_body]
fn json_string(s: &str) -> (r: String)
    ensures
        r@ == json_quoted(s@),
{
    serde_json::to_string(s).unwrap_or_default()
}

/// `serde_json::to_string(items)`: a list of strings as compact JSON text, as `json_string_list`
/// states it. Writing strings cannot fail.
#[verifier::external_body]
fn json_list(items: &Vec<String>) -> (r: String)
    ensures
        r@ == json_string_list(strings(items@)),
{
    serde_json::to_string(items).unwrap_or_default()
}

/// `s`, or `d` when `s` is empty.
pub open spec fn or_default(s: Seq<char>, d: Seq<char>) -> Seq<char> {
    if s.len() == 0 { d } else { s }
}

/// `true` or `false`, as script text.
pub open spec fn bool_text(b: bool) -> Seq<char> {
    if b { "true"@ } else { "false"@ }
}

/// The user agent presented when the fingerprint leaves it empty.
pub const DEFAULT_USER_AGENT: &'static str = "Mozilla/5.0 (Windows NT 10.0; Win64; x64) AppleWebKit/537.36 (KHTML, like Gecko) Chrome/126.0.0.0 Safari/537.36";

/// The platform presented when the fingerprint leaves it empty.
pub const DEFAULT_PLATFORM: &'static str = "Win32";

/// The language presented when the fingerprint leaves it empty.
pub const DEFAULT_LANGUAGE: &'static str = "pt-BR";

/// The screen resolution presented when the fingerprint leaves it empty.
pub const DEFAULT_RESOLUTION: &'static str = "1920x1080";

/// The WebGL vendor presented when the fingerprint leaves it empty.
pub const DEFAULT_WEBGL_VENDOR: &'static str = "Google Inc. (Intel)";

/// The WebGL renderer presented when the fingerprint leaves it empty.
pub const DEFAULT_WEBGL_RENDERER: &'static str = "ANGLE (Intel, Intel(R) UHD Graphics Direct3D11 vs_5_0 ps_5_0)";

/// The time zone presented when the fingerprint leaves it empty.
pub const DEFAULT_TIMEZONE: &'static str = "America/Sao_Paulo";

/// The geolocation presented when the fingerprint leaves it empty.
pub const DEFAULT_GEOLOCATION: &'static str = "-23.5505,-46.6333";

/// The fonts presented when the fingerprint lists none.
pub open spec fn default_fonts() -> Seq<Seq<char>> {
    seq![
        "Arial"@,
        "Courier New"@,
        "Georgia"@,
        "Times New Roman"@,
        "Verdana"@,
        "Segoe UI"@,
        "Roboto"@,
        "Open Sans"@,
    ]
}

fn default_font_list() -> (v: Vec<String>)
    ensures
        strings(v@) == default_fonts(),
{
    let mut v: Vec<String> = Vec::new();
    v.push("Arial".to_string());
    v.push("Courier New".to_string());
    v.push("Georgia".to_string());
    v.push("Times New Roman".to_string());
    v.push("Verdana".to_string());
    v.push("Segoe UI".to_string());
    v.push("Roboto".to_string());
    v.push("Open Sans".to_string());
    assert(strings(v@) =~= default_fonts());
    v
}

/// The script that makes a page present the fingerprint: its values, between quotes as JSON
/// strings (the fonts as a JSON list), put into the fixed script text.
pub open spec fn spoof_script_of(fp: FingerprintConfig) -> Seq<char> {
    let fonts = fonts_shown(fp);
    SPOOF_BEFORE_UA@ + json_quoted(or_default(fp.user_agent@, DEFAULT_USER_AGENT@))
        + SPOOF_BEFORE_PLATFORM@ + json_quoted(or_default(fp.platform@, DEFAULT_PLATFORM@))
        + SPOOF_BEFORE_LANG@ + json_quoted(or_default(fp.language@, DEFAULT_LANGUAGE@))
        + SPOOF_BEFORE_RESOLUTION@ + json_quoted(or_default(fp.resolution@, DEFAULT_RESOLUTION@))
        + SPOOF_BEFORE_VENDOR@ + json_quoted(or_default(fp.webgl_vendor@, DEFAULT_WEBGL_VENDOR@))
        + SPOOF_BEFORE_RENDERER@ + json_quoted(or_default(fp.webgl_renderer@, DEFAULT_WEBGL_RENDERER@))
        + SPOOF_BEFORE_TIMEZONE@ + json_quoted(or_default(fp.timezone@, DEFAULT_TIMEZONE@))
        + SPOOF_BEFORE_GEO@ + json_quoted(or_default(fp.geolocation@, DEFAULT_GEOLOCATION@))
        + SPOOF_BEFORE_CONCURRENCY@ + decimal(fp.hardware_concurrency as nat)
        + SPOOF_BEFORE_MEMORY@ + decimal(fp.device_memory as nat)
        + SPOOF_BEFORE_FONTS@ + json_string_list(fonts)
        + SPOOF_BEFORE_CANVAS@ + bool_text(fp.canvas_noise)
        + SPOOF_BEFORE_AUDIO@ + bool_text(fp.audio_noise)
        + SPOOF_TAIL@
}

/// `s`, or `d` when `s` is empty, as JSON text appended to `out`.
fn push_json_or_default(out: &mut Vec<char>, s: &String, d: &str)
    ensures
        final(out)@ == old(out)@ + json_quoted(or_default(s@, d@)),
{
    let j = if s.as_str().is_empty() {
        json_string(d)
    } else {
        json_string(s.as_str())
    };
    push_str(out, j.as_str());
}

/// `true` or `false` appended to `out`.
fn push_bool(out: &mut Vec<char>, b: bool)
    ensures
        final(out)@ == old(out)@ + bool_text(b),
{
    if b {
        push_str(out, "true");
    } else {
        push_str(out, "false");
    }
}

/// The script to run on every new document of a profile so that it presents the fingerprint
/// `fp`: user agent, platform, language, screen, WebGL, time zone, geolocation, hardware, fonts
/// and noise switches, each falling back to a default when left empty.
pub fn fingerprint_script(fp: &FingerprintConfig) -> (s: String)
    ensures
        s@ == spoof_script_of(*fp),
{
    let mut out = chars_of(SPOOF_BEFORE_UA);
    push_json_or_default(&mut out, &fp.user_agent, DEFAULT_USER_AGENT);
    push_str(&mut out, SPOOF_BEFORE_PLATFORM);
    push_json_or_default(&mut out, &fp.platform, DEFAULT_PLATFORM);
    push_str(&mut out, SPOOF_BEFORE_LANG);
    push_json_or_default(&mut out, &fp.language, DEFAULT_LANGUAGE);
    push_str(&mut out, SPOOF_BEFORE_RESOLUTION);
    push_json_or_default(&mut out, &fp.resolution, DEFAULT_RESOLUTION);
    push_str(&mut out, SPOOF_BEFORE_VENDOR);
    push_json_or_default(&mut out, &fp.webgl_vendor, DEFAULT_WEBGL_VENDOR);
    push_str(&mut out, SPOOF_BEFORE_RENDERER);
    push_json_or_default(&mut out, &fp.webgl_renderer, DEFAULT_WEBGL_RENDERER);
    push_str(&mut out, SPOOF_BEFORE_TIMEZONE);
    push_json_or_default(&mut out, &fp.timezone, DEFAULT_TIMEZONE);
    push_str(&mut out, SPOOF_BEFORE_GEO);
    push_json_or_default(&mut out, &fp.geolocation, DEFAULT_GEOLOCATION);
    push_str(&mut out, SPOOF_BEFORE_CONCURRENCY);
    let hc = decimal_chars(fp.hardware_concurrency as u64);
    push_chars(&mut out, &hc);
    push_str(&mut out, SPOOF_BEFORE_MEMORY);
    let dm = decimal_chars(fp.device_memory as u64);
    push_chars(&mut out, &dm);
    push_str(&mut out, SPOOF_BEFORE_FONTS);
    let fonts = if fp.fonts.len() == 0 {
        json_list(&default_font_list())
    } else {
        json_list(&fp.fonts)
    };
    push_str(&mut out, fonts.as_str());
    push_str(&mut out, SPOOF_BEFORE_CANVAS);
    push_bool(&mut out, fp.canvas_noise);
    push_str(&mut out, SPOOF_BEFORE_AUDIO);
    push_bool(&mut out, fp.audio_noise);
    push_str(&mut out, SPOOF_TAIL);
    string_of(&out)
}

/// `t` occurs in `s`, at some position.
pub open spec fn occurs_in(t: Seq<char>, s: Seq<char>) -> bool {
    exists|k: int| 0 <= k && k + t.len() <= s.len() && #[trigger] s.subrange(k, k + t.len()) == t
}

/// The fonts the script presents: the configured ones, or the defaults when none are.
pub open spec fn fonts_shown(fp: FingerprintConfig) -> Seq<Seq<char>> {
    if fp.fonts@.len() == 0 { default_fonts() } else { strings(fp.fonts@) }
}

proof fn lemma_occurs_at_end(a: Seq<char>, x: Seq<char>, y: Seq<char>, z: Seq<char>)
    ensures
        occurs_in(x + y + z, a + x + y + z),
{
    let s = a + x + y + z;
    let m = x + y + z;
    assert(s.subrange(a.len() as int, (a.len() + m.len()) as int) =~= m);
}

proof fn lemma_occurs_extend(t: Seq<char>, s: Seq<char>, x: Seq<char>)
    requires
        occurs_in(t, s),
    ensures
        occurs_in(t, s + x),
{
    let k = choose|k: int| 0 <= k && k + t.len() <= s.len() && #[trigger] s.subrange(k, k + t.len()) == t;
    assert((s + x).subrange(k, k + t.len()) =~= s.subrange(k, k + t.len()));
}

proof fn lemma_slot_user_agent(fp: FingerprintConfig)
    ensures
        occurs_in(SPOOF_BEFORE_UA@ + json_quoted(or_default(fp.user_agent@, DEFAULT_USER_AGENT@)) + SPOOF_BEFORE_PLATFORM@, spoof_script_of(fp)),
{
    let t = SPOOF_BEFORE_UA@ + json_quoted(or_default(fp.user_agent@, DEFAULT_USER_AGENT@)) + SPOOF_BEFORE_PLATFORM@;
    let l0 = Seq::<char>::empty() + SPOOF_BEFORE_UA@ + json_quoted(or_default(fp.user_agent@, DEFAULT_USER_AGENT@)) + SPOOF_BEFORE_PLATFORM@;
    assert(l0 =~= SPOOF_BEFORE_UA@ + json_quoted(or_default(fp.user_agent@, DEFAULT_USER_AGENT@)) + SPOOF_BEFORE_PLATFORM@);
    lemma_occurs_at_end(Seq::<char>::empty(), SPOOF_BEFORE_UA@, json_quoted(or_default(fp.user_agent@, DEFAULT_USER_AGENT@)), SPOOF_BEFORE_PLATFORM@);
    lemma_occurs_extend(t, l0, json_quoted(or_default(fp.platform@, DEFAULT_PLATFORM@)));
    let l1 = l0 + json_quoted(or_default(fp.platform@, DEFAULT_PLATFORM@));
    lemma_occurs_extend(t, l1, SPOOF_BEFORE_LANG@);
    let l2 = l1 + SPOOF_BEFORE_LANG@;
    lemma_occurs_extend(t, l2, json_quoted(or_default(fp.language@, DEFAULT_LANGUAGE@)));
    let l3 = l2 + json_quoted(or_default(fp.language@, DEFAULT_LANGUAGE@));
    lemma_occurs_extend(t, l3, SPOOF_BEFORE_RESOLUTION@);
    let l4 = l3 + SPOOF_BEFORE_RESOLUTION@;
    lemma_occurs_extend(t, l4, json_quoted(or_default(fp.resolution@, DEFAULT_RESOLUTION@)));
    let l5 = l4 + json_quoted(or_default(fp.resolution@, DEFAULT_RESOLUTION@));
    lemma_occurs_extend(t, l5, SPOOF_BEFORE_VENDOR@);
    let l6 = l5 + SPOOF_BEFORE_VENDOR@;
    lemma_occurs_extend(t, l6, json_quoted(or_default(fp.webgl_vendor@, DEFAULT_WEBGL_VENDOR@)));
    let l7 = l6 + json_quoted(or_default(fp.webgl_vendor@, DEFAULT_WEBGL_VENDOR@));
    lemma_occurs_extend(t, l7, SPOOF_BEFORE_RENDERER@);
    let l8 = l7 + SPOOF_BEFORE_RENDERER@;
    lemma_occurs_extend(t, l8, json_quoted(or_default(fp.webgl_renderer@, DEFAULT_WEBGL_RENDERER@)));
    let l9 = l8 + json_quoted(or_default(fp.webgl_renderer@, DEFAULT_WEBGL_RENDERER@));
    lemma_occurs_extend(t, l9, SPOOF_BEFORE_TIMEZONE@);
    let l10 = l9 + SPOOF_BEFORE_TIMEZONE@;
    lemma_occurs_extend(t, l10, json_quoted(or_default(fp.timezone@, DEFAULT_TIMEZONE@)));
    let l11 = l10 + json_quoted(or_default(fp.timezone@, DEFAULT_TIMEZONE@));
    lemma_occurs_extend(t, l11, SPOOF_BEFORE_GEO@);
    let l12 = l11 + SPOOF_BEFORE_GEO@;
    lemma_occurs_extend(t, l12, json_quoted(or_default(fp.geolocation@, DEFAULT_GEOLOCATION@)));
    let l13 = l12 + json_quoted(or_default(fp.geolocation@, DEFAULT_GEOLOCATION@));
    lemma_occurs_extend(t, l13, SPOOF_BEFORE_CONCURRENCY@);
    let l14 = l13 + SPOOF_BEFORE_CONCURRENCY@;
    lemma_occurs_extend(t, l14, decimal(fp.hardware_concurrency as nat));
    let l15 = l14 + decimal(fp.hardware_concurrency as nat);
    lemma_occurs_extend(t, l15, SPOOF_BEFORE_MEMORY@);
    let l16 = l15 + SPOOF_BEFORE_MEMORY@;
    lemma_occurs_extend(t, l16, decimal(fp.device_memory as nat));
    let l17 = l16 + decimal(fp.device_memory as nat);
    lemma_occurs_extend(t, l17, SPOOF_BEFORE_FONTS@);
    let l18 = l17 + SPOOF_BEFORE_FONTS@;
    lemma_occurs_extend(t, l18, json_string_list(fonts_shown(fp)));
    let l19 = l18 + json_string_list(fonts_shown(fp));
    lemma_occurs_extend(t, l19, SPOOF_BEFORE_CANVAS@);
    let l20 = l19 + SPOOF_BEFORE_CANVAS@;
    lemma_occurs_extend(t, l20, bool_text(fp.canvas_noise));
    let l21 = l20 + bool_text(fp.canvas_noise);
    lemma_occurs_extend(t, l21, SPOOF_BEFORE_AUDIO@);
    let l22 = l21 + SPOOF_BEFORE_AUDIO@;
    lemma_occurs_extend(t, l22, bool_text(fp.audio_noise));
    let l23 = l22 + bool_text(fp.audio_noise);
    lemma_occurs_extend(t, l23, SPOOF_TAIL@);
    let l24 = l23 + SPOOF_TAIL@;
    assert(l24 =~= spoof_script_of(fp));
}

proof fn lemma_slot_platform(fp: FingerprintConfig)
    ensures
        occurs_in(SPOOF_BEFORE_PLATFORM@ + json_quoted(or_default(fp.platform@, DEFAULT_PLATFORM@)) + SPOOF_BEFORE_LANG@, spoof_script_of(fp)),
{
    let t = SPOOF_BEFORE_PLATFORM@ + json_quoted(or_default(fp.platform@, DEFAULT_PLATFORM@)) + SPOOF_BEFORE_LANG@;
    let l0 = SPOOF_BEFORE_UA@ + json_quoted(or_default(fp.user_agent@, DEFAULT_USER_AGENT@)) + SPOOF_BEFORE_PLATFORM@ + json_quoted(or_default(fp.platform@, DEFAULT_PLATFORM@)) + SPOOF_BEFORE_LANG@;
    lemma_occurs_at_end(SPOOF_BEFORE_UA@ + json_quoted(or_default(fp.user_agent@, DEFAULT_USER_AGENT@)), SPOOF_BEFORE_PLATFORM@, json_quoted(or_default(fp.platform@, DEFAULT_PLATFORM@)), SPOOF_BEFORE_LANG@);
    lemma_occurs_extend(t, l0, json_quoted(or_default(fp.language@, DEFAULT_LANGUAGE@)));
    let l1 = l0 + json_quoted(or_default(fp.language@, DEFAULT_LANGUAGE@));
    lemma_occurs_extend(t, l1, SPOOF_BEFORE_RESOLUTION@);
    let l2 = l1 + SPOOF_BEFORE_RESOLUTION@;
    lemma_occurs_extend(t, l2, json_quoted(or_default(fp.resolution@, DEFAULT_RESOLUTION@)));
    let l3 = l2 + json_quoted(or_default(fp.resolution@, DEFAULT_RESOLUTION@));
    lemma_occurs_extend(t, l3, SPOOF_BEFORE_VENDOR@);
    let l4 = l3 + SPOOF_BEFORE_VENDOR@;
    lemma_occurs_extend(t, l4, json_quoted(or_default(fp.webgl_vendor@, DEFAULT_WEBGL_VENDOR@)));
    let l5 = l4 + json_quoted(or_default(fp.webgl_vendor@, DEFAULT_WEBGL_VENDOR@));
    lemma_occurs_extend(t, l5, SPOOF_BEFORE_RENDERER@);
    let l6 = l5 + SPOOF_BEFORE_RENDERER@;
    lemma_occurs_extend(t, l6, json_quoted(or_default(fp.webgl_renderer@, DEFAULT_WEBGL_RENDERER@)));
    let l7 = l6 + json_quoted(or_default(fp.webgl_renderer@, DEFAULT_WEBGL_RENDERER@));
    lemma_occurs_extend(t, l7, SPOOF_BEFORE_TIMEZONE@);
    let l8 = l7 + SPOOF_BEFORE_TIMEZONE@;
    lemma_occurs_extend(t, l8, json_quoted(or_default(fp.timezone@, DEFAULT_TIMEZONE@)));
    let l9 = l8 + json_quoted(or_default(fp.timezone@, DEFAULT_TIMEZONE@));
    lemma_occurs_extend(t, l9, SPOOF_BEFORE_GEO@);
    let l10 = l9 + SPOOF_BEFORE_GEO@;
    lemma_occurs_extend(t, l10, json_quoted(or_default(fp.geolocation@, DEFAULT_GEOLOCATION@)));
    let l11 = l10 + json_quoted(or_default(fp.geolocation@, DEFAULT_GEOLOCATION@));
    lemma_occurs_extend(t, l11, SPOOF_BEFORE_CONCURRENCY@);
    let l12 = l11 + SPOOF_BEFORE_CONCURRENCY@;
    lemma_occurs_extend(t, l12, decimal(fp.hardware_concurrency as nat));
    let l13 = l12 + decimal(fp.hardware_concurrency as nat);
    lemma_occurs_extend(t, l13, SPOOF_BEFORE_MEMORY@);
    let l14 = l13 + SPOOF_BEFORE_MEMORY@;
    lemma_occurs_extend(t, l14, decimal(fp.device_memory as nat));
    let l15 = l14 + decimal(fp.device_memory as nat);
    lemma_occurs_extend(t, l15, SPOOF_BEFORE_FONTS@);
    let l16 = l15 + SPOOF_BEFORE_FONTS@;
    lemma_occurs_extend(t, l16, json_string_list(fonts_shown(fp)));
    let l17 = l16 + json_string_list(fonts_shown(fp));
    lemma_occurs_extend(t, l17, SPOOF_BEFORE_CANVAS@);
    let l18 = l17 + SPOOF_BEFORE_CANVAS@;
    lemma_occurs_extend(t, l18, bool_text(fp.canvas_noise));
    let l19 = l18 + bool_text(fp.canvas_noise);
    lemma_occurs_extend(t, l19, SPOOF_BEFORE_AUDIO@);
    let l20 = l19 + SPOOF_BEFORE_AUDIO@;
    lemma_occurs_extend(t, l20, bool_text(fp.audio_noise));
    let l21 = l20 + bool_text(fp.audio_noise);
    lemma_occurs_extend(t, l21, SPOOF_TAIL@);
    let l22 = l21 + SPOOF_TAIL@;
    assert(l22 == spoof_script_of(fp));
}

proof fn lemma_slot_language(fp: FingerprintConfig)
    ensures
        occurs_in(SPOOF_BEFORE_LANG@ + json_quoted(or_default(fp.language@, DEFAULT_LANGUAGE@)) + SPOOF_BEFORE_RESOLUTION@, spoof_script_of(fp)),
{
    let t = SPOOF_BEFORE_LANG@ + json_quoted(or_default(fp.language@, DEFAULT_LANGUAGE@)) + SPOOF_BEFORE_RESOLUTION@;
    let l0 = SPOOF_BEFORE_UA@ + json_quoted(or_default(fp.user_agent@, DEFAULT_USER_AGENT@)) + SPOOF_BEFORE_PLATFORM@ + json_quoted(or_default(fp.platform@, DEFAULT_PLATFORM@)) + SPOOF_BEFORE_LANG@ + json_quoted(or_default(fp.language@, DEFAULT_LANGUAGE@)) + SPOOF_BEFORE_RESOLUTION@;
    lemma_occurs_at_end(SPOOF_BEFORE_UA@ + json_quoted(or_default(fp.user_agent@, DEFAULT_USER_AGENT@)) + SPOOF_BEFORE_PLATFORM@ + json_quoted(or_default(fp.platform@, DEFAULT_PLATFORM@)), SPOOF_BEFORE_LANG@, json_quoted(or_default(fp.language@, DEFAULT_LANGUAGE@)), SPOOF_BEFORE_RESOLUTION@);
    lemma_occurs_extend(t, l0, json_quoted(or_default(fp.resolution@, DEFAULT_RESOLUTION@)));
    let l1 = l0 + json_quoted(or_default(fp.resolution@, DEFAULT_RESOLUTION@));
    lemma_occurs_extend(t, l1, SPOOF_BEFORE_VENDOR@);
    let l2 = l1 + SPOOF_BEFORE_VENDOR@;
    lemma_occurs_extend(t, l2, json_quoted(or_default(fp.webgl_vendor@, DEFAULT_WEBGL_VENDOR@)));
    let l3 = l2 + json_quoted(or_default(fp.webgl_vendor@, DEFAULT_WEBGL_VENDOR@));
    lemma_occurs_extend(t, l3, SPOOF_BEFORE_RENDERER@);
    let l4 = l3 + SPOOF_BEFORE_RENDERER@;
    lemma_occurs_extend(t, l4, json_quoted(or_default(fp.webgl_renderer@, DEFAULT_WEBGL_RENDERER@)));
    let l5 = l4 + json_quoted(or_default(fp.webgl_renderer@, DEFAULT_WEBGL_RENDERER@));
    lemma_occurs_extend(t, l5, SPOOF_BEFORE_TIMEZONE@);
    let l6 = l5 + SPOOF_BEFORE_TIMEZONE@;
    lemma_occurs_extend(t, l6, json_quoted(or_default(fp.timezone@, DEFAULT_TIMEZONE@)));
    let l7 = l6 + json_quoted(or_default(fp.timezone@, DEFAULT_TIMEZONE@));
    lemma_occurs_extend(t, l7, SPOOF_BEFORE_GEO@);
    let l8 = l7 + SPOOF_BEFORE_GEO@;
    lemma_occurs_extend(t, l8, json_quoted(or_default(fp.geolocation@, DEFAULT_GEOLOCATION@)));
    let l9 = l8 + json_quoted(or_default(fp.geolocation@, DEFAULT_GEOLOCATION@));
    lemma_occurs_extend(t, l9, SPOOF_BEFORE_CONCURRENCY@);
    let l10 = l9 + SPOOF_BEFORE_CONCURRENCY@;
    lemma_occurs_extend(t, l10, decimal(fp.hardware_concurrency as nat));
    let l11 = l10 + decimal(fp.hardware_concurrency as nat);
    lemma_occurs_extend(t, l11, SPOOF_BEFORE_MEMORY@);
    let l12 = l11 + SPOOF_BEFORE_MEMORY@;
    lemma_occurs_extend(t, l12, decimal(fp.device_memory as nat));
    let l13 = l12 + decimal(fp.device_memory as nat);
    lemma_occurs_extend(t, l13, SPOOF_BEFORE_FONTS@);
    let l14 = l13 + SPOOF_BEFORE_FONTS@;
    lemma_occurs_extend(t, l14, json_string_list(fonts_shown(fp)));
    let l15 = l14 + json_string_list(fonts_shown(fp));
    lemma_occurs_extend(t, l15, SPOOF_BEFORE_CANVAS@);
    let l16 = l15 + SPOOF_BEFORE_CANVAS@;
    lemma_occurs_extend(t, l16, bool_text(fp.canvas_noise));
    let l17 = l16 + bool_text(fp.canvas_noise);
    lemma_occurs_extend(t, l17, SPOOF_BEFORE_AUDIO@);
    let l18 = l17 + SPOOF_BEFORE_AUDIO@;
    lemma_occurs_extend(t, l18, bool_text(fp.audio_noise));
    let l19 = l18 + bool_text(fp.audio_noise);
    lemma_occurs_extend(t, l19, SPOOF_TAIL@);
    let l20 = l19 + SPOOF_TAIL@;
    assert(l20 == spoof_script_of(fp));
}

proof fn lemma_slot_resolution(fp: FingerprintConfig)
    ensures
        occurs_in(SPOOF_BEFORE_RESOLUTION@ + json_quoted(or_default(fp.resolution@, DEFAULT_RESOLUTION@)) + SPOOF_BEFORE_VENDOR@, spoof_script_of(fp)),
{
    let t = SPOOF_BEFORE_RESOLUTION@ + json_quoted(or_default(fp.resolution@, DEFAULT_RESOLUTION@)) + SPOOF_BEFORE_VENDOR@;
    let l0 = SPOOF_BEFORE_UA@ + json_quoted(or_default(fp.user_agent@, DEFAULT_USER_AGENT@)) + SPOOF_BEFORE_PLATFORM@ + json_quoted(or_default(fp.platform@, DEFAULT_PLATFORM@)) + SPOOF_BEFORE_LANG@ + json_quoted(or_default(fp.language@, DEFAULT_LANGUAGE@)) + SPOOF_BEFORE_RESOLUTION@ + json_quoted(or_default(fp.resolution@, DEFAULT_RESOLUTION@)) + SPOOF_BEFORE_VENDOR@;
    lemma_occurs_at_end(SPOOF_BEFORE_UA@ + json_quoted(or_default(fp.user_agent@, DEFAULT_USER_AGENT@)) + SPOOF_BEFORE_PLATFORM@ + json_quoted(or_default(fp.platform@, DEFAULT_PLATFORM@)) + SPOOF_BEFORE_LANG@ + json_quoted(or_default(fp.language@, DEFAULT_LANGUAGE@)), SPOOF_BEFORE_RESOLUTION@, json_quoted(or_default(fp.resolution@, DEFAULT_RESOLUTION@)), SPOOF_BEFORE_VENDOR@);
    lemma_occurs_extend(t, l0, json_quoted(or_default(fp.webgl_vendor@, DEFAULT_WEBGL_VENDOR@)));
    let l1 = l0 + json_quoted(or_default(fp.webgl_vendor@, DEFAULT_WEBGL_VENDOR@));
    lemma_occurs_extend(t, l1, SPOOF_BEFORE_RENDERER@);
    let l2 = l1 + SPOOF_BEFORE_RENDERER@;
    lemma_occurs_extend(t, l2, json_quoted(or_default(fp.webgl_renderer@, DEFAULT_WEBGL_RENDERER@)));
    let l3 = l2 + json_quoted(or_default(fp.webgl_renderer@, DEFAULT_WEBGL_RENDERER@));
    lemma_occurs_extend(t, l3, SPOOF_BEFORE_TIMEZONE@);
    let l4 = l3 + SPOOF_BEFORE_TIMEZONE@;
    lemma_occurs_extend(t, l4, json_quoted(or_default(fp.timezone@, DEFAULT_TIMEZONE@)));
    let l5 = l4 + json_quoted(or_default(fp.timezone@, DEFAULT_TIMEZONE@));
    lemma_occurs_extend(t, l5, SPOOF_BEFORE_GEO@);
    let l6 = l5 + SPOOF_BEFORE_GEO@;
    lemma_occurs_extend(t, l6, json_quoted(or_default(fp.geolocation@, DEFAULT_GEOLOCATION@)));
    let l7 = l6 + json_quoted(or_default(fp.geolocation@, DEFAULT_GEOLOCATION@));
    lemma_occurs_extend(t, l7, SPOOF_BEFORE_CONCURRENCY@);
    let l8 = l7 + SPOOF_BEFORE_CONCURRENCY@;
    lemma_occurs_extend(t, l8, decimal(fp.hardware_concurrency as nat));
    let l9 = l8 + decimal(fp.hardware_concurrency as nat);
    lemma_occurs_extend(t, l9, SPOOF_BEFORE_MEMORY@);
    let l10 = l9 + SPOOF_BEFORE_MEMORY@;
    lemma_occurs_extend(t, l10, decimal(fp.device_memory as nat));
    let l11 = l10 + decimal(fp.device_memory as nat);
    lemma_occurs_extend(t, l11, SPOOF_BEFORE_FONTS@);
    let l12 = l11 + SPOOF_BEFORE_FONTS@;
    lemma_occurs_extend(t, l12, json_string_list(fonts_shown(fp)));
    let l13 = l12 + json_string_list(fonts_shown(fp));
    lemma_occurs_extend(t, l13, SPOOF_BEFORE_CANVAS@);
    let l14 = l13 + SPOOF_BEFORE_CANVAS@;
    lemma_occurs_extend(t, l14, bool_text(fp.canvas_noise));
    let l15 = l14 + bool_text(fp.canvas_noise);
    lemma_occurs_extend(t, l15, SPOOF_BEFORE_AUDIO@);
    let l16 = l15 + SPOOF_BEFORE_AUDIO@;
    lemma_occurs_extend(t, l16, bool_text(fp.audio_noise));
    let l17 = l16 + bool_text(fp.audio_noise);
    lemma_occurs_extend(t, l17, SPOOF_TAIL@);
    let l18 = l17 + SPOOF_TAIL@;
    assert(l18 == spoof_script_of(fp));
}

proof fn lemma_slot_webgl_vendor(fp: FingerprintConfig)
    ensures
        occurs_in(SPOOF_BEFORE_VENDOR@ + json_quoted(or_default(fp.webgl_vendor@, DEFAULT_WEBGL_VENDOR@)) + SPOOF_BEFORE_RENDERER@, spoof_script_of(fp)),
{
    let t = SPOOF_BEFORE_VENDOR@ + json_quoted(or_default(fp.webgl_vendor@, DEFAULT_WEBGL_VENDOR@)) + SPOOF_BEFORE_RENDERER@;
    let l0 = SPOOF_BEFORE_UA@ + json_quoted(or_default(fp.user_agent@, DEFAULT_USER_AGENT@)) + SPOOF_BEFORE_PLATFORM@ + json_quoted(or_default(fp.platform@, DEFAULT_PLATFORM@)) + SPOOF_BEFORE_LANG@ + json_quoted(or_default(fp.language@, DEFAULT_LANGUAGE@)) + SPOOF_BEFORE_RESOLUTION@ + json_quoted(or_default(fp.resolution@, DEFAULT_RESOLUTION@)) + SPOOF_BEFORE_VENDOR@ + json_quoted(or_default(fp.webgl_vendor@, DEFAULT_WEBGL_VENDOR@)) + SPOOF_BEFORE_RENDERER@;
    lemma_occurs_at_end(SPOOF_BEFORE_UA@ + json_quoted(or_default(fp.user_agent@, DEFAULT_USER_AGENT@)) + SPOOF_BEFORE_PLATFORM@ + json_quoted(or_default(fp.platform@, DEFAULT_PLATFORM@)) + SPOOF_BEFORE_LANG@ + json_quoted(or_default(fp.language@, DEFAULT_LANGUAGE@)) + SPOOF_BEFORE_RESOLUTION@ + json_quoted(or_default(fp.resolution@, DEFAULT_RESOLUTION@)), SPOOF_BEFORE_VENDOR@, json_quoted(or_default(fp.webgl_vendor@, DEFAULT_WEBGL_VENDOR@)), SPOOF_BEFORE_RENDERER@);
    lemma_occurs_extend(t, l0, json_quoted(or_default(fp.webgl_renderer@, DEFAULT_WEBGL_RENDERER@)));
    let l1 = l0 + json_quoted(or_default(fp.webgl_renderer@, DEFAULT_WEBGL_RENDERER@));
    lemma_occurs_extend(t, l1, SPOOF_BEFORE_TIMEZONE@);
    let l2 = l1 + SPOOF_BEFORE_TIMEZONE@;
    lemma_occurs_extend(t, l2, json_quoted(or_default(fp.timezone@, DEFAULT_TIMEZONE@)));
    let l3 = l2 + json_quoted(or_default(fp.timezone@, DEFAULT_TIMEZONE@));
    lemma_occurs_extend(t, l3, SPOOF_BEFORE_GEO@);
    let l4 = l3 + SPOOF_BEFORE_GEO@;
    lemma_occurs_extend(t, l4, json_quoted(or_default(fp.geolocation@, DEFAULT_GEOLOCATION@)));
    let l5 = l4 + json_quoted(or_default(fp.geolocation@, DEFAULT_GEOLOCATION@));
    lemma_occurs_extend(t, l5, SPOOF_BEFORE_CONCURRENCY@);
    let l6 = l5 + SPOOF_BEFORE_CONCURRENCY@;
    lemma_occurs_extend(t, l6, decimal(fp.hardware_concurrency as nat));
    let l7 = l6 + decimal(fp.hardware_concurrency as nat);
    lemma_occurs_extend(t, l7, SPOOF_BEFORE_MEMORY@);
    let l8 = l7 + SPOOF_BEFORE_MEMORY@;
    lemma_occurs_extend(t, l8, decimal(fp.device_memory as nat));
    let l9 = l8 + decimal(fp.device_memory as nat);
    lemma_occurs_extend(t, l9, SPOOF_BEFORE_FONTS@);
    let l10 = l9 + SPOOF_BEFORE_FONTS@;
    lemma_occurs_extend(t, l10, json_string_list(fonts_shown(fp)));
    let l11 = l10 + json_string_list(fonts_shown(fp));
    lemma_occurs_extend(t, l11, SPOOF_BEFORE_CANVAS@);
    let l12 = l11 + SPOOF_BEFORE_CANVAS@;
    lemma_occurs_extend(t, l12, bool_text(fp.canvas_noise));
    let l13 = l12 + bool_text(fp.canvas_noise);
    lemma_occurs_extend(t, l13, SPOOF_BEFORE_AUDIO@);
    let l14 = l13 + SPOOF_BEFORE_AUDIO@;
    lemma_occurs_extend(t, l14, bool_text(fp.audio_noise));
    let l15 = l14 + bool_text(fp.audio_noise);
    lemma_occurs_extend(t, l15, SPOOF_TAIL@);
    let l16 = l15 + SPOOF_TAIL@;
    assert(l16 == spoof_script_of(fp));
}

proof fn lemma_slot_webgl_renderer(fp: FingerprintConfig)
    ensures
        occurs_in(SPOOF_BEFORE_RENDERER@ + json_quoted(or_default(fp.webgl_renderer@, DEFAULT_WEBGL_RENDERER@)) + SPOOF_BEFORE_TIMEZONE@, spoof_script_of(fp)),
{
    let t = SPOOF_BEFORE_RENDERER@ + json_quoted(or_default(fp.webgl_renderer@, DEFAULT_WEBGL_RENDERER@)) + SPOOF_BEFORE_TIMEZONE@;
    let l0 = SPOOF_BEFORE_UA@ + json_quoted(or_default(fp.user_agent@, DEFAULT_USER_AGENT@)) + SPOOF_BEFORE_PLATFORM@ + json_quoted(or_default(fp.platform@, DEFAULT_PLATFORM@)) + SPOOF_BEFORE_LANG@ + json_quoted(or_default(fp.language@, DEFAULT_LANGUAGE@)) + SPOOF_BEFORE_RESOLUTION@ + json_quoted(or_default(fp.resolution@, DEFAULT_RESOLUTION@)) + SPOOF_BEFORE_VENDOR@ + json_quoted(or_default(fp.webgl_vendor@, DEFAULT_WEBGL_VENDOR@)) + SPOOF_BEFORE_RENDERER@ + json_quoted(or_default(fp.webgl_renderer@, DEFAULT_WEBGL_RENDERER@)) + SPOOF_BEFORE_TIMEZONE@;
    lemma_occurs_at_end(SPOOF_BEFORE_UA@ + json_quoted(or_default(fp.user_agent@, DEFAULT_USER_AGENT@)) + SPOOF_BEFORE_PLATFORM@ + json_quoted(or_default(fp.platform@, DEFAULT_PLATFORM@)) + SPOOF_BEFORE_LANG@ + json_quoted(or_default(fp.language@, DEFAULT_LANGUAGE@)) + SPOOF_BEFORE_RESOLUTION@ + json_quoted(or_default(fp.resolution@, DEFAULT_RESOLUTION@)) + SPOOF_BEFORE_VENDOR@ + json_quoted(or_default(fp.webgl_vendor@, DEFAULT_WEBGL_VENDOR@)), SPOOF_BEFORE_RENDERER@, json_quoted(or_default(fp.webgl_renderer@, DEFAULT_WEBGL_RENDERER@)), SPOOF_BEFORE_TIMEZONE@);
    lemma_occurs_extend(t, l0, json_quoted(or_default(fp.timezone@, DEFAULT_TIMEZONE@)));
    let l1 = l0 + json_quoted(or_default(fp.timezone@, DEFAULT_TIMEZONE@));
    lemma_occurs_extend(t, l1, SPOOF_BEFORE_GEO@);
    let l2 = l1 + SPOOF_BEFORE_GEO@;
    lemma_occurs_extend(t, l2, json_quoted(or_default(fp.geolocation@, DEFAULT_GEOLOCATION@)));
    let l3 = l2 + json_quoted(or_default(fp.geolocation@, DEFAULT_GEOLOCATION@));
    lemma_occurs_extend(t, l3, SPOOF_BEFORE_CONCURRENCY@);
    let l4 = l3 + SPOOF_BEFORE_CONCURRENCY@;
    lemma_occurs_extend(t, l4, decimal(fp.hardware_concurrency as nat));
    let l5 = l4 + decimal(fp.hardware_concurrency as nat);
    lemma_occurs_extend(t, l5, SPOOF_BEFORE_MEMORY@);
    let l6 = l5 + SPOOF_BEFORE_MEMORY@;
    lemma_occurs_extend(t, l6, decimal(fp.device_memory as nat));
    let l7 = l6 + decimal(fp.device_memory as nat);
    lemma_occurs_extend(t, l7, SPOOF_BEFORE_FONTS@);
    let l8 = l7 + SPOOF_BEFORE_FONTS@;
    lemma_occurs_extend(t, l8, json_string_list(fonts_shown(fp)));
    let l9 = l8 + json_string_list(fonts_shown(fp));
    lemma_occurs_extend(t, l9, SPOOF_BEFORE_CANVAS@);
    let l10 = l9 + SPOOF_BEFORE_CANVAS@;
    lemma_occurs_extend(t, l10, bool_text(fp.canvas_noise));
    let l11 = l10 + bool_text(fp.canvas_noise);
    lemma_occurs_extend(t, l11, SPOOF_BEFORE_AUDIO@);
    let l12 = l11 + SPOOF_BEFORE_AUDIO@;
    lemma_occurs_extend(t, l12, bool_text(fp.audio_noise));
    let l13 = l12 + bool_text(fp.audio_noise);
    lemma_occurs_extend(t, l13, SPOOF_TAIL@);
    let l14 = l13 + SPOOF_TAIL@;
    assert(l14 == spoof_script_of(fp));
}

proof fn lemma_slot_timezone(fp: FingerprintConfig)
    ensures
        occurs_in(SPOOF_BEFORE_TIMEZONE@ + json_quoted(or_default(fp.timezone@, DEFAULT_TIMEZONE@)) + SPOOF_BEFORE_GEO@, spoof_script_of(fp)),
{
    let t = SPOOF_BEFORE_TIMEZONE@ + json_quoted(or_default(fp.timezone@, DEFAULT_TIMEZONE@)) + SPOOF_BEFORE_GEO@;
    let l0 = SPOOF_BEFORE_UA@ + json_quoted(or_default(fp.user_agent@, DEFAULT_USER_AGENT@)) + SPOOF_BEFORE_PLATFORM@ + json_quoted(or_default(fp.platform@, DEFAULT_PLATFORM@)) + SPOOF_BEFORE_LANG@ + json_quoted(or_default(fp.language@, DEFAULT_LANGUAGE@)) + SPOOF_BEFORE_RESOLUTION@ + json_quoted(or_default(fp.resolution@, DEFAULT_RESOLUTION@)) + SPOOF_BEFORE_VENDOR@ + json_quoted(or_default(fp.webgl_vendor@, DEFAULT_WEBGL_VENDOR@)) + SPOOF_BEFORE_RENDERER@ + json_quoted(or_default(fp.webgl_renderer@, DEFAULT_WEBGL_RENDERER@)) + SPOOF_BEFORE_TIMEZONE@ + json_quoted(or_default(fp.timezone@, DEFAULT_TIMEZONE@)) + SPOOF_BEFORE_GEO@;
    lemma_occurs_at_end(SPOOF_BEFORE_UA@ + json_quoted(or_default(fp.user_agent@, DEFAULT_USER_AGENT@)) + SPOOF_BEFORE_PLATFORM@ + json_quoted(or_default(fp.platform@, DEFAULT_PLATFORM@)) + SPOOF_BEFORE_LANG@ + json_quoted(or_default(fp.language@, DEFAULT_LANGUAGE@)) + SPOOF_BEFORE_RESOLUTION@ + json_quoted(or_default(fp.resolution@, DEFAULT_RESOLUTION@)) + SPOOF_BEFORE_VENDOR@ + json_quoted(or_default(fp.webgl_vendor@, DEFAULT_WEBGL_VENDOR@)) + SPOOF_BEFORE_RENDERER@ + json_quoted(or_default(fp.webgl_renderer@, DEFAULT_WEBGL_RENDERER@)), SPOOF_BEFORE_TIMEZONE@, json_quoted(or_default(fp.timezone@, DEFAULT_TIMEZONE@)), SPOOF_BEFORE_GEO@);
    lemma_occurs_extend(t, l0, json_quoted(or_default(fp.geolocation@, DEFAULT_GEOLOCATION@)));
    let l1 = l0 + json_quoted(or_default(fp.geolocation@, DEFAULT_GEOLOCATION@));
    lemma_occurs_extend(t, l1, SPOOF_BEFORE_CONCURRENCY@);
    let l2 = l1 + SPOOF_BEFORE_CONCURRENCY@;
    lemma_occurs_extend(t, l2, decimal(fp.hardware_concurrency as nat));
    let l3 = l2 + decimal(fp.hardware_concurrency as nat);
    lemma_occurs_extend(t, l3, SPOOF_BEFORE_MEMORY@);
    let l4 = l3 + SPOOF_BEFORE_MEMORY@;
    lemma_occurs_extend(t, l4, decimal(fp.device_memory as nat));
    let l5 = l4 + decimal(fp.device_memory as nat);
    lemma_occurs_extend(t, l5, SPOOF_BEFORE_FONTS@);
    let l6 = l5 + SPOOF_BEFORE_FONTS@;
    lemma_occurs_extend(t, l6, json_string_list(fonts_shown(fp)));
    let l7 = l6 + json_string_list(fonts_shown(fp));
    lemma_occurs_extend(t, l7, SPOOF_BEFORE_CANVAS@);
    let l8 = l7 + SPOOF_BEFORE_CANVAS@;
    lemma_occurs_extend(t, l8, bool_text(fp.canvas_noise));
    let l9 = l8 + bool_text(fp.canvas_noise);
    lemma_occurs_extend(t, l9, SPOOF_BEFORE_AUDIO@);
    let l10 = l9 + SPOOF_BEFORE_AUDIO@;
    lemma_occurs_extend(t, l10, bool_text(fp.audio_noise));
    let l11 = l10 + bool_text(fp.audio_noise);
    lemma_occurs_extend(t, l11, SPOOF_TAIL@);
    let l12 = l11 + SPOOF_TAIL@;
    assert(l12 == spoof_script_of(fp));
}

proof fn lemma_slot_geolocation(fp: FingerprintConfig)
    ensures
        occurs_in(SPOOF_BEFORE_GEO@ + json_quoted(or_default(fp.geolocation@, DEFAULT_GEOLOCATION@)) + SPOOF_BEFORE_CONCURRENCY@, spoof_script_of(fp)),
{
    let t = SPOOF_BEFORE_GEO@ + json_quoted(or_default(fp.geolocation@, DEFAULT_GEOLOCATION@)) + SPOOF_BEFORE_CONCURRENCY@;
    let l0 = SPOOF_BEFORE_UA@ + json_quoted(or_default(fp.user_agent@, DEFAULT_USER_AGENT@)) + SPOOF_BEFORE_PLATFORM@ + json_quoted(or_default(fp.platform@, DEFAULT_PLATFORM@)) + SPOOF_BEFORE_LANG@ + json_quoted(or_default(fp.language@, DEFAULT_LANGUAGE@)) + SPOOF_BEFORE_RESOLUTION@ + json_quoted(or_default(fp.resolution@, DEFAULT_RESOLUTION@)) + SPOOF_BEFORE_VENDOR@ + json_quoted(or_default(fp.webgl_vendor@, DEFAULT_WEBGL_VENDOR@)) + SPOOF_BEFORE_RENDERER@ + json_quoted(or_default(fp.webgl_renderer@, DEFAULT_WEBGL_RENDERER@)) + SPOOF_BEFORE_TIMEZONE@ + json_quoted(or_default(fp.timezone@, DEFAULT_TIMEZONE@)) + SPOOF_BEFORE_GEO@ + json_quoted(or_default(fp.geolocation@, DEFAULT_GEOLOCATION@)) + SPOOF_BEFORE_CONCURRENCY@;
    lemma_occurs_at_end(SPOOF_BEFORE_UA@ + json_quoted(or_default(fp.user_agent@, DEFAULT_USER_AGENT@)) + SPOOF_BEFORE_PLATFORM@ + json_quoted(or_default(fp.platform@, DEFAULT_PLATFORM@)) + SPOOF_BEFORE_LANG@ + json_quoted(or_default(fp.language@, DEFAULT_LANGUAGE@)) + SPOOF_BEFORE_RESOLUTION@ + json_quoted(or_default(fp.resolution@, DEFAULT_RESOLUTION@)) + SPOOF_BEFORE_VENDOR@ + json_quoted(or_default(fp.webgl_vendor@, DEFAULT_WEBGL_VENDOR@)) + SPOOF_BEFORE_RENDERER@ + json_quoted(or_default(fp.webgl_renderer@, DEFAULT_WEBGL_RENDERER@)) + SPOOF_BEFORE_TIMEZONE@ + json_quoted(or_default(fp.timezone@, DEFAULT_TIMEZONE@)), SPOOF_BEFORE_GEO@, json_quoted(or_default(fp.geolocation@, DEFAULT_GEOLOCATION@)), SPOOF_BEFORE_CONCURRENCY@);
    lemma_occurs_extend(t, l0, decimal(fp.hardware_concurrency as nat));
    let l1 = l0 + decimal(fp.hardware_concurrency as nat);
    lemma_occurs_extend(t, l1, SPOOF_BEFORE_MEMORY@);
    let l2 = l1 + SPOOF_BEFORE_MEMORY@;
    lemma_occurs_extend(t, l2, decimal(fp.device_memory as nat));
    let l3 = l2 + decimal(fp.device_memory as nat);
    lemma_occurs_extend(t, l3, SPOOF_BEFORE_FONTS@);
    let l4 = l3 + SPOOF_BEFORE_FONTS@;
    lemma_occurs_extend(t, l4, json_string_list(fonts_shown(fp)));
    let l5 = l4 + json_string_list(fonts_shown(fp));
    lemma_occurs_extend(t, l5, SPOOF_BEFORE_CANVAS@);
    let l6 = l5 + SPOOF_BEFORE_CANVAS@;
    lemma_occurs_extend(t, l6, bool_text(fp.canvas_noise));
    let l7 = l6 + bool_text(fp.canvas_noise);
    lemma_occurs_extend(t, l7, SPOOF_BEFORE_AUDIO@);
    let l8 = l7 + SPOOF_BEFORE_AUDIO@;
    lemma_occurs_extend(t, l8, bool_text(fp.audio_noise));
    let l9 = l8 + bool_text(fp.audio_noise);
    lemma_occurs_extend(t, l9, SPOOF_TAIL@);
    let l10 = l9 + SPOOF_TAIL@;
    assert(l10 == spoof_script_of(fp));
}

proof fn lemma_slot_hardware_concurrency(fp: FingerprintConfig)
    ensures
        occurs_in(SPOOF_BEFORE_CONCURRENCY@ + decimal(fp.hardware_concurrency as nat) + SPOOF_BEFORE_MEMORY@, spoof_script_of(fp)),
{
    let t = SPOOF_BEFORE_CONCURRENCY@ + decimal(fp.hardware_concurrency as nat) + SPOOF_BEFORE_MEMORY@;
    let l0 = SPOOF_BEFORE_UA@ + json_quoted(or_default(fp.user_agent@, DEFAULT_USER_AGENT@)) + SPOOF_BEFORE_PLATFORM@ + json_quoted(or_default(fp.platform@, DEFAULT_PLATFORM@)) + SPOOF_BEFORE_LANG@ + json_quoted(or_default(fp.language@, DEFAULT_LANGUAGE@)) + SPOOF_BEFORE_RESOLUTION@ + json_quoted(or_default(fp.resolution@, DEFAULT_RESOLUTION@)) + SPOOF_BEFORE_VENDOR@ + json_quoted(or_default(fp.webgl_vendor@, DEFAULT_WEBGL_VENDOR@)) + SPOOF_BEFORE_RENDERER@ + json_quoted(or_default(fp.webgl_renderer@, DEFAULT_WEBGL_RENDERER@)) + SPOOF_BEFORE_TIMEZONE@ + json_quoted(or_default(fp.timezone@, DEFAULT_TIMEZONE@)) + SPOOF_BEFORE_GEO@ + json_quoted(or_default(fp.geolocation@, DEFAULT_GEOLOCATION@)) + SPOOF_BEFORE_CONCURRENCY@ + decimal(fp.hardware_concurrency as nat) + SPOOF_BEFORE_MEMORY@;
    lemma_occurs_at_end(SPOOF_BEFORE_UA@ + json_quoted(or_default(fp.user_agent@, DEFAULT_USER_AGENT@)) + SPOOF_BEFORE_PLATFORM@ + json_quoted(or_default(fp.platform@, DEFAULT_PLATFORM@)) + SPOOF_BEFORE_LANG@ + json_quoted(or_default(fp.language@, DEFAULT_LANGUAGE@)) + SPOOF_BEFORE_RESOLUTION@ + json_quoted(or_default(fp.resolution@, DEFAULT_RESOLUTION@)) + SPOOF_BEFORE_VENDOR@ + json_quoted(or_default(fp.webgl_vendor@, DEFAULT_WEBGL_VENDOR@)) + SPOOF_BEFORE_RENDERER@ + json_quoted(or_default(fp.webgl_renderer@, DEFAULT_WEBGL_RENDERER@)) + SPOOF_BEFORE_TIMEZONE@ + json_quoted(or_default(fp.timezone@, DEFAULT_TIMEZONE@)) + SPOOF_BEFORE_GEO@ + json_quoted(or_default(fp.geolocation@, DEFAULT_GEOLOCATION@)), SPOOF_BEFORE_CONCURRENCY@, decimal(fp.hardware_concurrency as nat), SPOOF_BEFORE_MEMORY@);
    lemma_occurs_extend(t, l0, decimal(fp.device_memory as nat));
    let l1 = l0 + decimal(fp.device_memory as nat);
    lemma_occurs_extend(t, l1, SPOOF_BEFORE_FONTS@);
    let l2 = l1 + SPOOF_BEFORE_FONTS@;
    lemma_occurs_extend(t, l2, json_string_list(fonts_shown(fp)));
    let l3 = l2 + json_string_list(fonts_shown(fp));
    lemma_occurs_extend(t, l3, SPOOF_BEFORE_CANVAS@);
    let l4 = l3 + SPOOF_BEFORE_CANVAS@;
    lemma_occurs_extend(t, l4, bool_text(fp.canvas_noise));
    let l5 = l4 + bool_text(fp.canvas_noise);
    lemma_occurs_extend(t, l5, SPOOF_BEFORE_AUDIO@);
    let l6 = l5 + SPOOF_BEFORE_AUDIO@;
    lemma_occurs_extend(t, l6, bool_text(fp.audio_noise));
    let l7 = l6 + bool_text(fp.audio_noise);
    lemma_occurs_extend(t, l7, SPOOF_TAIL@);
    let l8 = l7 + SPOOF_TAIL@;
    assert(l8 == spoof_script_of(fp));
}

proof fn lemma_slot_device_memory(fp: FingerprintConfig)
    ensures
        occurs_in(SPOOF_BEFORE_MEMORY@ + decimal(fp.device_memory as nat) + SPOOF_BEFORE_FONTS@, spoof_script_of(fp)),
{
    let t = SPOOF_BEFORE_MEMORY@ + decimal(fp.device_memory as nat) + SPOOF_BEFORE_FONTS@;
    let l0 = SPOOF_BEFORE_UA@ + json_quoted(or_default(fp.user_agent@, DEFAULT_USER_AGENT@)) + SPOOF_BEFORE_PLATFORM@ + json_quoted(or_default(fp.platform@, DEFAULT_PLATFORM@)) + SPOOF_BEFORE_LANG@ + json_quoted(or_default(fp.language@, DEFAULT_LANGUAGE@)) + SPOOF_BEFORE_RESOLUTION@ + json_quoted(or_default(fp.resolution@, DEFAULT_RESOLUTION@)) + SPOOF_BEFORE_VENDOR@ + json_quoted(or_default(fp.webgl_vendor@, DEFAULT_WEBGL_VENDOR@)) + SPOOF_BEFORE_RENDERER@ + json_quoted(or_default(fp.webgl_renderer@, DEFAULT_WEBGL_RENDERER@)) + SPOOF_BEFORE_TIMEZONE@ + json_quoted(or_default(fp.timezone@, DEFAULT_TIMEZONE@)) + SPOOF_BEFORE_GEO@ + json_quoted(or_default(fp.geolocation@, DEFAULT_GEOLOCATION@)) + SPOOF_BEFORE_CONCURRENCY@ + decimal(fp.hardware_concurrency as nat) + SPOOF_BEFORE_MEMORY@ + decimal(fp.device_memory as nat) + SPOOF_BEFORE_FONTS@;
    lemma_occurs_at_end(SPOOF_BEFORE_UA@ + json_quoted(or_default(fp.user_agent@, DEFAULT_USER_AGENT@)) + SPOOF_BEFORE_PLATFORM@ + json_quoted(or_default(fp.platform@, DEFAULT_PLATFORM@)) + SPOOF_BEFORE_LANG@ + json_quoted(or_default(fp.language@, DEFAULT_LANGUAGE@)) + SPOOF_BEFORE_RESOLUTION@ + json_quoted(or_default(fp.resolution@, DEFAULT_RESOLUTION@)) + SPOOF_BEFORE_VENDOR@ + json_quoted(or_default(fp.webgl_vendor@, DEFAULT_WEBGL_VENDOR@)) + SPOOF_BEFORE_RENDERER@ + json_quoted(or_default(fp.webgl_renderer@, DEFAULT_WEBGL_RENDERER@)) + SPOOF_BEFORE_TIMEZONE@ + json_quoted(or_default(fp.timezone@, DEFAULT_TIMEZONE@)) + SPOOF_BEFORE_GEO@ + json_quoted(or_default(fp.geolocation@, DEFAULT_GEOLOCATION@)) + SPOOF_BEFORE_CONCURRENCY@ + decimal(fp.hardware_concurrency as nat), SPOOF_BEFORE_MEMORY@, decimal(fp.device_memory as nat), SPOOF_BEFORE_FONTS@);
    lemma_occurs_extend(t, l0, json_string_list(fonts_shown(fp)));
    let l1 = l0 + json_string_list(fonts_shown(fp));
    lemma_occurs_extend(t, l1, SPOOF_BEFORE_CANVAS@);
    let l2 = l1 + SPOOF_BEFORE_CANVAS@;
    lemma_occurs_extend(t, l2, bool_text(fp.canvas_noise));
    let l3 = l2 + bool_text(fp.canvas_noise);
    lemma_occurs_extend(t, l3, SPOOF_BEFORE_AUDIO@);
    let l4 = l3 + SPOOF_BEFORE_AUDIO@;
    lemma_occurs_extend(t, l4, bool_text(fp.audio_noise));
    let l5 = l4 + bool_text(fp.audio_noise);
    lemma_occurs_extend(t, l5, SPOOF_TAIL@);
    let l6 = l5 + SPOOF_TAIL@;
    assert(l6 == spoof_script_of(fp));
}

proof fn lemma_slot_fonts(fp: FingerprintConfig)
    ensures
        occurs_in(SPOOF_BEFORE_FONTS@ + json_string_list(fonts_shown(fp)) + SPOOF_BEFORE_CANVAS@, spoof_script_of(fp)),
{
    let t = SPOOF_BEFORE_FONTS@ + json_string_list(fonts_shown(fp)) + SPOOF_BEFORE_CANVAS@;
    let l0 = SPOOF_BEFORE_UA@ + json_quoted(or_default(fp.user_agent@, DEFAULT_USER_AGENT@)) + SPOOF_BEFORE_PLATFORM@ + json_quoted(or_default(fp.platform@, DEFAULT_PLATFORM@)) + SPOOF_BEFORE_LANG@ + json_quoted(or_default(fp.language@, DEFAULT_LANGUAGE@)) + SPOOF_BEFORE_RESOLUTION@ + json_quoted(or_default(fp.resolution@, DEFAULT_RESOLUTION@)) + SPOOF_BEFORE_VENDOR@ + json_quoted(or_default(fp.webgl_vendor@, DEFAULT_WEBGL_VENDOR@)) + SPOOF_BEFORE_RENDERER@ + json_quoted(or_default(fp.webgl_renderer@, DEFAULT_WEBGL_RENDERER@)) + SPOOF_BEFORE_TIMEZONE@ + json_quoted(or_default(fp.timezone@, DEFAULT_TIMEZONE@)) + SPOOF_BEFORE_GEO@ + json_quoted(or_default(fp.geolocation@, DEFAULT_GEOLOCATION@)) + SPOOF_BEFORE_CONCURRENCY@ + decimal(fp.hardware_concurrency as nat) + SPOOF_BEFORE_MEMORY@ + decimal(fp.device_memory as nat) + SPOOF_BEFORE_FONTS@ + json_string_list(fonts_shown(fp)) + SPOOF_BEFORE_CANVAS@;
    lemma_occurs_at_end(SPOOF_BEFORE_UA@ + json_quoted(or_default(fp.user_agent@, DEFAULT_USER_AGENT@)) + SPOOF_BEFORE_PLATFORM@ + json_quoted(or_default(fp.platform@, DEFAULT_PLATFORM@)) + SPOOF_BEFORE_LANG@ + json_quoted(or_default(fp.language@, DEFAULT_LANGUAGE@)) + SPOOF_BEFORE_RESOLUTION@ + json_quoted(or_default(fp.resolution@, DEFAULT_RESOLUTION@)) + SPOOF_BEFORE_VENDOR@ + json_quoted(or_default(fp.webgl_vendor@, DEFAULT_WEBGL_VENDOR@)) + SPOOF_BEFORE_RENDERER@ + json_quoted(or_default(fp.webgl_renderer@, DEFAULT_WEBGL_RENDERER@)) + SPOOF_BEFORE_TIMEZONE@ + json_quoted(or_default(fp.timezone@, DEFAULT_TIMEZONE@)) + SPOOF_BEFORE_GEO@ + json_quoted(or_default(fp.geolocation@, DEFAULT_GEOLOCATION@)) + SPOOF_BEFORE_CONCURRENCY@ + decimal(fp.hardware_concurrency as nat) + SPOOF_BEFORE_MEMORY@ + decimal(fp.device_memory as nat), SPOOF_BEFORE_FONTS@, json_string_list(fonts_shown(fp)), SPOOF_BEFORE_CANVAS@);
    lemma_occurs_extend(t, l0, bool_text(fp.canvas_noise));
    let l1 = l0 + bool_text(fp.canvas_noise);
    lemma_occurs_extend(t, l1, SPOOF_BEFORE_AUDIO@);
    let l2 = l1 + SPOOF_BEFORE_AUDIO@;
    lemma_occurs_extend(t, l2, bool_text(fp.audio_noise));
    let l3 = l2 + bool_text(fp.audio_noise);
    lemma_occurs_extend(t, l3, SPOOF_TAIL@);
    let l4 = l3 + SPOOF_TAIL@;
    assert(l4 == spoof_script_of(fp));
}

proof fn lemma_slot_canvas_noise(fp: FingerprintConfig)
    ensures
        occurs_in(SPOOF_BEFORE_CANVAS@ + bool_text(fp.canvas_noise) + SPOOF_BEFORE_AUDIO@, spoof_script_of(fp)),
{
    let t = SPOOF_BEFORE_CANVAS@ + bool_text(fp.canvas_noise) + SPOOF_BEFORE_AUDIO@;
    let l0 = SPOOF_BEFORE_UA@ + json_quoted(or_default(fp.user_agent@, DEFAULT_USER_AGENT@)) + SPOOF_BEFORE_PLATFORM@ + json_quoted(or_default(fp.platform@, DEFAULT_PLATFORM@)) + SPOOF_BEFORE_LANG@ + json_quoted(or_default(fp.language@, DEFAULT_LANGUAGE@)) + SPOOF_BEFORE_RESOLUTION@ + json_quoted(or_default(fp.resolution@, DEFAULT_RESOLUTION@)) + SPOOF_BEFORE_VENDOR@ + json_quoted(or_default(fp.webgl_vendor@, DEFAULT_WEBGL_VENDOR@)) + SPOOF_BEFORE_RENDERER@ + json_quoted(or_default(fp.webgl_renderer@, DEFAULT_WEBGL_RENDERER@)) + SPOOF_BEFORE_TIMEZONE@ + json_quoted(or_default(fp.timezone@, DEFAULT_TIMEZONE@)) + SPOOF_BEFORE_GEO@ + json_quoted(or_default(fp.geolocation@, DEFAULT_GEOLOCATION@)) + SPOOF_BEFORE_CONCURRENCY@ + decimal(fp.hardware_concurrency as nat) + SPOOF_BEFORE_MEMORY@ + decimal(fp.device_memory as nat) + SPOOF_BEFORE_FONTS@ + json_string_list(fonts_shown(fp)) + SPOOF_BEFORE_CANVAS@ + bool_text(fp.canvas_noise) + SPOOF_BEFORE_AUDIO@;
    lemma_occurs_at_end(SPOOF_BEFORE_UA@ + json_quoted(or_default(fp.user_agent@, DEFAULT_USER_AGENT@)) + SPOOF_BEFORE_PLATFORM@ + json_quoted(or_default(fp.platform@, DEFAULT_PLATFORM@)) + SPOOF_BEFORE_LANG@ + json_quoted(or_default(fp.language@, DEFAULT_LANGUAGE@)) + SPOOF_BEFORE_RESOLUTION@ + json_quoted(or_default(fp.resolution@, DEFAULT_RESOLUTION@)) + SPOOF_BEFORE_VENDOR@ + json_quoted(or_default(fp.webgl_vendor@, DEFAULT_WEBGL_VENDOR@)) + SPOOF_BEFORE_RENDERER@ + json_quoted(or_default(fp.webgl_renderer@, DEFAULT_WEBGL_RENDERER@)) + SPOOF_BEFORE_TIMEZONE@ + json_quoted(or_default(fp.timezone@, DEFAULT_TIMEZONE@)) + SPOOF_BEFORE_GEO@ + json_quoted(or_default(fp.geolocation@, DEFAULT_GEOLOCATION@)) + SPOOF_BEFORE_CONCURRENCY@ + decimal(fp.hardware_concurrency as nat) + SPOOF_BEFORE_MEMORY@ + decimal(fp.device_memory as nat) + SPOOF_BEFORE_FONTS@ + json_string_list(fonts_shown(fp)), SPOOF_BEFORE_CANVAS@, bool_text(fp.canvas_noise), SPOOF_BEFORE_AUDIO@);
    lemma_occurs_extend(t, l0, bool_text(fp.audio_noise));
    let l1 = l0 + bool_text(fp.audio_noise);
    lemma_occurs_extend(t, l1, SPOOF_TAIL@);
    let l2 = l1 + SPOOF_TAIL@;
    assert(l2 == spoof_script_of(fp));
}

proof fn lemma_slot_audio_noise(fp: FingerprintConfig)
    ensures
        occurs_in(SPOOF_BEFORE_AUDIO@ + bool_text(fp.audio_noise) + SPOOF_TAIL@, spoof_script_of(fp)),
{
    let t = SPOOF_BEFORE_AUDIO@ + bool_text(fp.audio_noise) + SPOOF_TAIL@;
    let l0 = SPOOF_BEFORE_UA@ + json_quoted(or_default(fp.user_agent@, DEFAULT_USER_AGENT@)) + SPOOF_BEFORE_PLATFORM@ + json_quoted(or_default(fp.platform@, DEFAULT_PLATFORM@)) + SPOOF_BEFORE_LANG@ + json_quoted(or_default(fp.language@, DEFAULT_LANGUAGE@)) + SPOOF_BEFORE_RESOLUTION@ + json_quoted(or_default(fp.resolution@, DEFAULT_RESOLUTION@)) + SPOOF_BEFORE_VENDOR@ + json_quoted(or_default(fp.webgl_vendor@, DEFAULT_WEBGL_VENDOR@)) + SPOOF_BEFORE_RENDERER@ + json_quoted(or_default(fp.webgl_renderer@, DEFAULT_WEBGL_RENDERER@)) + SPOOF_BEFORE_TIMEZONE@ + json_quoted(or_default(fp.timezone@, DEFAULT_TIMEZONE@)) + SPOOF_BEFORE_GEO@ + json_quoted(or_default(fp.geolocation@, DEFAULT_GEOLOCATION@)) + SPOOF_BEFORE_CONCURRENCY@ + decimal(fp.hardware_concurrency as nat) + SPOOF_BEFORE_MEMORY@ + decimal(fp.device_memory as nat) + SPOOF_BEFORE_FONTS@ + json_string_list(fonts_shown(fp)) + SPOOF_BEFORE_CANVAS@ + bool_text(fp.canvas_noise) + SPOOF_BEFORE_AUDIO@ + bool_text(fp.audio_noise) + SPOOF_TAIL@;
    lemma_occurs_at_end(SPOOF_BEFORE_UA@ + json_quoted(or_default(fp.user_agent@, DEFAULT_USER_AGENT@)) + SPOOF_BEFORE_PLATFORM@ + json_quoted(or_default(fp.platform@, DEFAULT_PLATFORM@)) + SPOOF_BEFORE_LANG@ + json_quoted(or_default(fp.language@, DEFAULT_LANGUAGE@)) + SPOOF_BEFORE_RESOLUTION@ + json_quoted(or_default(fp.resolution@, DEFAULT_RESOLUTION@)) + SPOOF_BEFORE_VENDOR@ + json_quoted(or_default(fp.webgl_vendor@, DEFAULT_WEBGL_VENDOR@)) + SPOOF_BEFORE_RENDERER@ + json_quoted(or_default(fp.webgl_renderer@, DEFAULT_WEBGL_RENDERER@)) + SPOOF_BEFORE_TIMEZONE@ + json_quoted(or_default(fp.timezone@, DEFAULT_TIMEZONE@)) + SPOOF_BEFORE_GEO@ + json_quoted(or_default(fp.geolocation@, DEFAULT_GEOLOCATION@)) + SPOOF_BEFORE_CONCURRENCY@ + decimal(fp.hardware_concurrency as nat) + SPOOF_BEFORE_MEMORY@ + decimal(fp.device_memory as nat) + SPOOF_BEFORE_FONTS@ + json_string_list(fonts_shown(fp)) + SPOOF_BEFORE_CANVAS@ + bool_text(fp.canvas_noise), SPOOF_BEFORE_AUDIO@, bool_text(fp.audio_noise), SPOOF_TAIL@);
    assert(l0 == spoof_script_of(fp));
}

/// Each value of the fingerprint script stands in its own place: the text that introduces a
/// value is followed by that value, taken from its own field of `fp` (or its default when the
/// field is empty), and then by the text that introduces the next one. So the time zone the
/// page presents is the configured time zone, the language the configured language, and so on.
pub proof fn law_fingerprint_values_in_place(fp: FingerprintConfig)
    ensures
        occurs_in(SPOOF_BEFORE_UA@ + json_quoted(or_default(fp.user_agent@, DEFAULT_USER_AGENT@)) + SPOOF_BEFORE_PLATFORM@, spoof_script_of(fp)),
        occurs_in(SPOOF_BEFORE_PLATFORM@ + json_quoted(or_default(fp.platform@, DEFAULT_PLATFORM@)) + SPOOF_BEFORE_LANG@, spoof_script_of(fp)),
        occurs_in(SPOOF_BEFORE_LANG@ + json_quoted(or_default(fp.language@, DEFAULT_LANGUAGE@)) + SPOOF_BEFORE_RESOLUTION@, spoof_script_of(fp)),
        occurs_in(SPOOF_BEFORE_RESOLUTION@ + json_quoted(or_default(fp.resolution@, DEFAULT_RESOLUTION@)) + SPOOF_BEFORE_VENDOR@, spoof_script_of(fp)),
        occurs_in(SPOOF_BEFORE_VENDOR@ + json_quoted(or_default(fp.webgl_vendor@, DEFAULT_WEBGL_VENDOR@)) + SPOOF_BEFORE_RENDERER@, spoof_script_of(fp)),
        occurs_in(SPOOF_BEFORE_RENDERER@ + json_quoted(or_default(fp.webgl_renderer@, DEFAULT_WEBGL_RENDERER@)) + SPOOF_BEFORE_TIMEZONE@, spoof_script_of(fp)),
        occurs_in(SPOOF_BEFORE_TIMEZONE@ + json_quoted(or_default(fp.timezone@, DEFAULT_TIMEZONE@)) + SPOOF_BEFORE_GEO@, spoof_script_of(fp)),
        occurs_in(SPOOF_BEFORE_GEO@ + json_quoted(or_default(fp.geolocation@, DEFAULT_GEOLOCATION@)) + SPOOF_BEFORE_CONCURRENCY@, spoof_script_of(fp)),
        occurs_in(SPOOF_BEFORE_CONCURRENCY@ + decimal(fp.hardware_concurrency as nat) + SPOOF_BEFORE_MEMORY@, spoof_script_of(fp)),
        occurs_in(SPOOF_BEFORE_MEMORY@ + decimal(fp.device_memory as nat) + SPOOF_BEFORE_FONTS@, spoof_script_of(fp)),
        occurs_in(SPOOF_BEFORE_FONTS@ + json_string_list(fonts_shown(fp)) + SPOOF_BEFORE_CANVAS@, spoof_script_of(fp)),
        occurs_in(SPOOF_BEFORE_CANVAS@ + bool_text(fp.canvas_noise) + SPOOF_BEFORE_AUDIO@, spoof_script_of(fp)),
        occurs_in(SPOOF_BEFORE_AUDIO@ + bool_text(fp.audio_noise) + SPOOF_TAIL@, spoof_script_of(fp)),
{
    lemma_slot_user_agent(fp);
    lemma_slot_platform(fp);
    lemma_slot_language(fp);
    lemma_slot_resolution(fp);
    lemma_slot_webgl_vendor(fp);
    lemma_slot_webgl_renderer(fp);
    lemma_slot_timezone(fp);
    lemma_slot_geolocation(fp);
    lemma_slot_hardware_concurrency(fp);
    lemma_slot_device_memory(fp);
    lemma_slot_fonts(fp);
    lemma_slot_canvas_noise(fp);
    lemma_slot_audio_noise(fp);
}

/// The page a sign-in starts from when the credentials give none.
pub const DEFAULT_LOGIN_URL: &'static str = "https://accounts.google.com";

/// The page to sign in on: `url`, or the default when it is empty.
pub fn login_url(url: &str) -> (r: String)
    ensures
        r@ == or_default(url@, DEFAULT_LOGIN_URL@),
{
    if url.is_empty() {
        DEFAULT_LOGIN_URL.to_string()
    } else {
        url.to_owned()
    }
}

/// The script that fills in and submits the sign-in form.
pub open spec fn login_script_of(email: Seq<char>, password: Seq<char>) -> Seq<char> {
    LOGIN_BEFORE_EMAIL@ + json_quoted(email) + LOGIN_BEFORE_PASSWORD@ + json_quoted(password) + LOGIN_TAIL@
}

/// The script that types `email` and `password` into a sign-in page and submits them.
pub fn login_script(email: &str, password: &str) -> (s: String)
    ensures
        s@ == login_script_of(email@, password@),
{
    let mut out = chars_of(LOGIN_BEFORE_EMAIL);
    let e = json_string(email);
    push_str(&mut out, e.as_str());
    push_str(&mut out, LOGIN_BEFORE_PASSWORD);
    let p = json_string(password);
    push_str(&mut out, p.as_str());
    push_str(&mut out, LOGIN_TAIL);
    string_of(&out)
}

/// The script that writes a comment and sends it.
pub open spec fn comment_script_of(text: Seq<char>) -> Seq<char> {
    COMMENT_BEFORE_TEXT@ + json_quoted(text) + COMMENT_BETWEEN_TEXTS@ + json_quoted(text) + COMMENT_TAIL@
}

/// The script that puts `text` into the live chat or comment box of a video page and sends it.
pub fn comment_script(text: &str) -> (s: String)
    ensures
        s@ == comment_script_of(text@),
{
    let q = json_string(text);
    let mut out = chars_of(COMMENT_BEFORE_TEXT);
    push_str(&mut out, q.as_str());
    push_str(&mut out, COMMENT_BETWEEN_TEXTS);
    push_str(&mut out, q.as_str());
    push_str(&mut out, COMMENT_TAIL);
    string_of(&out)
}

/// The refusal when the page has no comment box.
pub open spec fn no_comment_box_message() -> Seq<char> {
    "Caixa de comentário não encontrada (vídeo pode não ter iniciado ou não é comentável)"@
}

/// What the comment script reported: it failed only when it found no input box.
pub fn comment_outcome(reported: Option<&str>) -> (r: Result<(), String>)
    ensures
        match reported {
            Some(v) => if v@ == "NO_INPUT"@ {
                r matches Err(e) && e@ == no_comment_box_message()
            } else {
                r is Ok
            },
            None => r is Ok,
        },
{
    match reported {
        Some(v) => {
            if crate::text::str_eq(v, "NO_INPUT") {
                Err("Caixa de comentário não encontrada (vídeo pode não ter iniciado ou não é comentável)".to_string())
            } else {
                Ok(())
            }
        },
        None => Ok(()),
    }
}

} // verus!

verus! {

/// A debugging target as the browser lists it: its kind and its WebSocket address, where the
/// listing gives them as strings.
#[derive(Debug)]
pub struct CdpTarget {
    pub target_type: Option<String>,
    pub ws_url: Option<String>,
}

/// The position of the first target of kind `page`, or -1.
pub open spec fn first_page(targets: Seq<CdpTarget>) -> int
    decreases targets.len(),
{
    if targets.len() == 0 {
        -1
    } else if first_page(targets.drop_last()) >= 0 {
        first_page(targets.drop_last())
    } else if targets.last().target_type matches Some(t) && t@ == "page"@ {
        targets.len() - 1
    } else {
        -1
    }
}

proof fn lemma_first_page_none(t: Seq<CdpTarget>, i: int)
    requires
        0 <= i <= t.len(),
        forall|k: int| 0 <= k < i ==> !(#[trigger] t[k].target_type matches Some(x) && x@ == "page"@),
    ensures
        first_page(t.take(i)) == -1,
    decreases i,
{
    if i > 0 {
        assert(t.take(i).drop_last() == t.take(i - 1));
        lemma_first_page_none(t, i - 1);
    } else {
        assert(t.take(0).len() == 0);
    }
}

proof fn lemma_first_page_hit(t: Seq<CdpTarget>, i: int)
    requires
        0 <= i < t.len(),
        first_page(t.take(i)) == -1,
        t[i].target_type matches Some(x) && x@ == "page"@,
    ensures
        first_page(t) == i,
    decreases t.len(),
{
    if t.len() == i + 1 {
        assert(t.drop_last() == t.take(i));
    } else {
        let d = t.drop_last();
        assert(d.take(i) == t.take(i));
        lemma_first_page_hit(d, i);
    }
}

/// A target's WebSocket address, empty where the listing gives none.
pub open spec fn ws_url_of(t: CdpTarget) -> Seq<char> {
    match t.ws_url {
        Some(u) => u@,
        None => Seq::empty(),
    }
}

/// The address to drive a browser by: that of its first page, else that of its first target;
/// `None` when it lists no target.
pub open spec fn chosen_ws_url(targets: Seq<CdpTarget>) -> Option<Seq<char>> {
    if first_page(targets) >= 0 {
        Some(ws_url_of(targets[first_page(targets)]))
    } else if targets.len() > 0 {
        Some(ws_url_of(targets[0]))
    } else {
        None
    }
}

fn ws_url_text(t: &CdpTarget) -> (s: String)
    ensures
        s@ == ws_url_of(*t),
{
    match &t.ws_url {
        Some(u) => u.clone(),
        None => String::new(),
    }
}

/// Chooses the WebSocket address among the browser's debugging targets: the first page's, else
/// the first target's.
pub fn select_ws_url(targets: &Vec<CdpTarget>) -> (r: Option<String>)
    ensures
        match r {
            Some(u) => chosen_ws_url(targets@) == Some(u@),
            None => chosen_ws_url(targets@) is None,
        },
{
    let mut i: usize = 0;
    while i < targets.len()
        invariant
            0 <= i <= targets@.len(),
            forall|k: int| 0 <= k < i ==> !(#[trigger] targets@[k].target_type matches Some(x) && x@ == "page"@),
        decreases targets.len() - i,
    {
        let is_page = match &targets[i].target_type {
            Some(x) => crate::text::str_eq(x.as_str(), "page"),
            None => false,
        };
        if is_page {
            proof {
                lemma_first_page_none(targets@, i as int);
                lemma_first_page_hit(targets@, i as int);
            }
            return Some(ws_url_text(&targets[i]));
        }
        i = i + 1;
    }
    proof {
        lemma_first_page_none(targets@, targets@.len() as int);
        assert(targets@.take(targets@.len() as int) == targets@);
    }
    if targets.len() > 0 {
        Some(ws_url_text(&targets[0]))
    } else {
        None
    }
}

/// The refusal when the browser's debugging endpoint does not answer in time.
pub open spec fn cdp_timeout_message() -> Seq<char> {
    "CDP timeout after 10s"@
}

/// One round of waiting for the debugging endpoint: with a target listing, its chosen address
/// (`Ok(Some(..))`); without one, or with an empty one, another round (`Ok(None)`) until the
/// deadline has passed, then the refusal.
pub fn ws_poll_step(listing: Option<&Vec<CdpTarget>>, deadline_passed: bool) -> (r: Result<Option<String>, String>)
    ensures
        match listing {
            Some(t) if chosen_ws_url(t@) is Some => r matches Ok(Some(u)) && chosen_ws_url(t@) == Some(u@),
            _ => if deadline_passed {
                r matches Err(e) && e@ == cdp_timeout_message()
            } else {
                r matches Ok(None)
            },
        },
{
    match listing {
        Some(t) => match select_ws_url(t) {
            Some(u) => {
                return Ok(Some(u));
            },
            None => {},
        },
        None => {},
    }
    if deadline_passed {
        Err("CDP timeout after 10s".to_string())
    } else {
        Ok(None)
    }
}

} // verus!

verus! {

/// The message of the error `url::Url::parse` gives for a text, `None` where it parses.
pub uninterp spec fn url_parse_error_of(text: Seq<char>) -> Option<Seq<char>>;

/// The host `url::Url::host_str` reads from a text that parses as a URL.
pub uninterp spec fn url_host_of(text: Seq<char>) -> Option<Seq<char>>;

/// The explicit port `url::Url::port` reads from a text that parses as a URL (none for the
/// scheme's default).
pub uninterp spec fn url_port_of(text: Seq<char>) -> Option<u16>;

/// The path `url::Url::path` reads from a text that parses as a URL.
pub uninterp spec fn url_path_of(text: Seq<char>) -> Seq<char>;

/// `url::Url::parse(text)`: `None` where the text parses, else the message of its error.
#[verifier::external_body]
fn url_parse_error(text: &str) -> (r: Option<String>)
    ensures
        crate::profile::opt_view(r) == url_parse_error_of(text@),
{
    match url::Url::parse(text) {
        Ok(_) => None,
        Err(e) => Some(e.to_string()),
    }
}

/// `url::Url::parse(text)?.host_str()`, for a text that parses.
#[verifier::external_body]
fn url_host(text: &str) -> (r: Option<String>)
    requires
        url_parse_error_of(text@) is None,
    ensures
        crate::profile::opt_view(r) == url_host_of(text@),
{
    match url::Url::parse(text) {
        Ok(u) => u.host_str().map(|h| h.to_string()),
        Err(_) => None,
    }
}

/// `url::Url::parse(text)?.port()`, for a text that parses.
#[verifier::external_body]
fn url_port(text: &str) -> (r: Option<u16>)
    requires
        url_parse_error_of(text@) is None,
    ensures
        r == url_port_of(text@),
{
    match url::Url::parse(text) {
        Ok(u) => u.port(),
        Err(_) => None,
    }
}

/// `url::Url::parse(text)?.path()`, for a text that parses.
#[verifier::external_body]
fn url_path(text: &str) -> (r: String)
    requires
        url_parse_error_of(text@) is None,
    ensures
        r@ == url_path_of(text@),
{
    match url::Url::parse(text) {
        Ok(u) => u.path().to_string(),
        Err(_) => String::new(),
    }
}

/// The host used when the address names none.
pub const LOOPBACK_HOST: &'static str = "127.0.0.1";

/// The plain WebSocket address of a host, port and path.
pub open spec fn ws_address_of(host: Option<Seq<char>>, port: Option<u16>, path: Seq<char>, default_port: u16) -> Seq<char> {
    let h = match host {
        Some(x) => x,
        None => LOOPBACK_HOST@,
    };
    let p = match port {
        Some(x) => x,
        None => default_port,
    };
    "ws://"@ + h + seq![':'] + decimal(p as nat) + path
}

/// `ws://host:port/path` from the parts of an address: the loopback host when there is none,
/// `default_port` when there is no port.
pub fn ws_address_from_parts(host: Option<&str>, port: Option<u16>, path: &str, default_port: u16) -> (r: String)
    ensures
        r@ == ws_address_of(
            match host {
                Some(h) => Some(h@),
                None => None,
            },
            port,
            path@,
            default_port,
        ),
{
    let mut out = chars_of("ws://");
    match host {
        Some(h) => push_str(&mut out, h),
        None => push_str(&mut out, LOOPBACK_HOST),
    }
    out.push(':');
    let p = match port {
        Some(x) => x,
        None => default_port,
    };
    let digits = decimal_chars(p as u64);
    push_chars(&mut out, &digits);
    push_str(&mut out, path);
    assert(out@ =~= ws_address_of(
        match host {
            Some(h) => Some(h@),
            None => None,
        },
        port,
        path@,
        default_port,
    ));
    string_of(&out)
}

/// The address to open a WebSocket to, rebuilt from the debugging address `ws_url` of a browser
/// whose debugging port is `port`; a text that is no URL is refused.
pub fn ws_address(ws_url: &str, port: u16) -> (r: Result<String, String>)
    ensures
        match url_parse_error_of(ws_url@) {
            Some(m) => r matches Err(e) && e@ == "URL parse: "@ + m,
            None => r matches Ok(a) && a@ == ws_address_of(
                url_host_of(ws_url@),
                url_port_of(ws_url@),
                url_path_of(ws_url@),
                port,
            ),
        },
{
    match url_parse_error(ws_url) {
        Some(m) => {
            let mut out = chars_of("URL parse: ");
            push_str(&mut out, m.as_str());
            Err(string_of(&out))
        },
        None => {
            let host = url_host(ws_url);
            let p = url_port(ws_url);
            let path = url_path(ws_url);
            let h: Option<&str> = match &host {
                Some(x) => Some(x.as_str()),
                None => None,
            };
            Ok(ws_address_from_parts(h, p, path.as_str(), port))
        },
    }
}

/// The fields of a cookie to set, as an exported cookie gives them where it gives them with
/// the expected kind.
#[derive(Debug)]
pub struct CookieInput {
    pub name: Option<String>,
    pub value: Option<String>,
    pub domain: Option<String>,
    pub path: Option<String>,
    pub secure: Option<bool>,
    pub http_only: Option<bool>,
    pub same_site: Option<String>,
}

/// The fields of a `Network.setCookie` command.
#[derive(Debug)]
pub struct CookieParams {
    pub name: String,
    pub value: String,
    pub domain: String,
    pub path: String,
    pub secure: bool,
    pub http_only: bool,
    pub same_site: String,
}

/// A text, or `d` where there is none.
pub open spec fn text_or(s: Option<String>, d: Seq<char>) -> Seq<char> {
    match s {
        Some(x) => x@,
        None => d,
    }
}

fn text_or_else(s: &Option<String>, d: &str) -> (r: String)
    ensures
        r@ == text_or(*s, d@),
{
    match s {
        Some(x) => x.clone(),
        None => d.to_owned(),
    }
}

/// The command fields for one cookie: missing texts are empty, a missing path is `/`, missing
/// flags are off, and a missing same-site policy is `None`.
pub fn cookie_params(c: &CookieInput) -> (p: CookieParams)
    ensures
        p.name@ == text_or(c.name, ""@),
        p.value@ == text_or(c.value, ""@),
        p.domain@ == text_or(c.domain, ""@),
        p.path@ == text_or(c.path, "/"@),
        p.secure == (c.secure == Some(true)),
        p.http_only == (c.http_only == Some(true)),
        p.same_site@ == text_or(c.same_site, "None"@),
{
    CookieParams {
        name: text_or_else(&c.name, ""),
        value: text_or_else(&c.value, ""),
        domain: text_or_else(&c.domain, ""),
        path: text_or_else(&c.path, "/"),
        secure: match c.secure {
            Some(b) => b,
            None => false,
        },
        http_only: match c.http_only {
            Some(b) => b,
            None => false,
        },
        same_site: text_or_else(&c.same_site, "None"),
    }
}

/// The command number of the cookie at position `i` of an import: `Network.enable` takes 1, so
/// the cookies take 2, 3, and so on.
pub fn set_cookie_command_id(i: usize) -> (id: i64)
    requires
        i + 2 <= i64::MAX,
    ensures
        id == i + 2,
{
    i as i64 + 2
}

} // verus!

verus! {

/// One frame read from the browser's WebSocket, by what the waiting loops look at: a JSON text
/// with its `id` (where it is an integer) and `method` (where it is a string), a text that is not
/// JSON, any other frame, or a failed read with its error text.
#[derive(Debug)]
pub enum CdpFrame {
    Json { id: Option<i64>, method: Option<String> },
    NotJson,
    Other,
    Failed(String),
}

/// What a waiting loop does after a frame: take it as the answer, read on, or give up.
#[derive(Debug)]
pub enum ReadStep {
    Answer,
    ReadOn,
    GiveUp(String),
}

/// Waiting for the reply to command `id`: the JSON text carrying that id answers; a failed read
/// gives up with its error; anything else is read past.
pub fn reply_step(frame: &CdpFrame, id: i64) -> (s: ReadStep)
    ensures
        match frame {
            CdpFrame::Json { id: got, .. } => if *got == Some(id) { s is Answer } else { s is ReadOn },
            CdpFrame::Failed(e) => s matches ReadStep::GiveUp(m) && m@ == "CDP read: "@ + e@,
            _ => s is ReadOn,
        },
{
    match frame {
        CdpFrame::Json { id: got, .. } => {
            if *got == Some(id) {
                ReadStep::Answer
            } else {
                ReadStep::ReadOn
            }
        },
        CdpFrame::Failed(e) => {
            let mut v = chars_of("CDP read: ");
            push_str(&mut v, e.as_str());
            ReadStep::GiveUp(string_of(&v))
        },
        _ => ReadStep::ReadOn,
    }
}

/// Waiting for event `event`: the JSON text naming that method answers; a failed read gives up
/// as a timeout; anything else is read past.
pub fn event_step(frame: &CdpFrame, event: &str) -> (s: ReadStep)
    ensures
        match frame {
            CdpFrame::Json { method: m, .. } => if m matches Some(x) && x@ == event@ {
                s is Answer
            } else {
                s is ReadOn
            },
            CdpFrame::Failed(_) => s matches ReadStep::GiveUp(m) && m@ == "CDP wait timeout"@,
            _ => s is ReadOn,
        },
{
    match frame {
        CdpFrame::Json { method: m, .. } => match m {
            Some(x) => {
                if crate::text::str_eq(x.as_str(), event) {
                    ReadStep::Answer
                } else {
                    ReadStep::ReadOn
                }
            },
            None => ReadStep::ReadOn,
        },
        CdpFrame::Failed(_) => ReadStep::GiveUp("CDP wait timeout".to_string()),
        _ => ReadStep::ReadOn,
    }
}

} // verus!
