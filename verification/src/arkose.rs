//! The form that asks the arkose service for a public key. It carries an
//! encrypted browser fingerprint in which the entry `n` holds the current
//! time, keyed by the browser name and the start of the current six-hour
//! window.
use base64::Engine;
use vstd::prelude::*;
use vstd::string::{StrSliceExecFns, StringExecFns};
use vstd::utf8::encode_utf8;

use crate::text::{all_ascii_digits, decimal_value, is_ascii_digit, parse_u32};

verus! {

broadcast use vstd::string::group_string_axioms;

// ---------------------------------------------------------------------------
// Outside calls
// ---------------------------------------------------------------------------

/// The character of the standard base64 alphabet for the six-bit value `v`.
pub open spec fn base64_digit(v: int) -> char {
    if v < 26 {
        (0x41 + v) as char
    } else if v < 52 {
        (0x61 + v - 26) as char
    } else if v < 62 {
        (0x30 + v - 52) as char
    } else if v == 62 {
        '+'
    } else {
        '/'
    }
}

/// The standard base64 encoding with `=` padding: every three bytes become
/// four characters of six bits each; a last group of one or two bytes
/// becomes two or three characters followed by `==` or `=`.
pub open spec fn base64_text(b: Seq<u8>) -> Seq<char>
    decreases b.len(),
{
    let b0 = b[0] as int;
    let b1 = b[1] as int;
    let b2 = b[2] as int;
    if b.len() == 0 {
        Seq::empty()
    } else if b.len() == 1 {
        seq![base64_digit(b0 / 4), base64_digit((b0 % 4) * 16), '=', '=']
    } else if b.len() == 2 {
        seq![
            base64_digit(b0 / 4),
            base64_digit((b0 % 4) * 16 + b1 / 16),
            base64_digit((b1 % 16) * 4),
            '=',
        ]
    } else {
        seq![
            base64_digit(b0 / 4),
            base64_digit((b0 % 4) * 16 + b1 / 16),
            base64_digit((b1 % 16) * 4 + b2 / 64),
            base64_digit(b2 % 64),
        ] + base64_text(b.skip(3))
    }
}

/// Calls `base64::engine::general_purpose::STANDARD.encode`: the standard
/// alphabet with padding, as `base64_text` states.
#[verifier::external_body]
fn base64_encode(bytes: &[u8]) -> (r: String)
    ensures
        r@ == base64_text(bytes@),
{
    base64::engine::general_purpose::STANDARD.encode(bytes)
}

/// An ASCII letter or digit: the bytes `NON_ALPHANUMERIC` leaves as they are.
pub open spec fn is_ascii_alphanumeric(b: u8) -> bool {
    ||| 0x30 <= b <= 0x39
    ||| 0x41 <= b <= 0x5a
    ||| 0x61 <= b <= 0x7a
}

/// An upper-case hexadecimal digit.
pub open spec fn hex_digit(d: u8) -> char {
    if d < 10 {
        (0x30 + d) as char
    } else {
        (0x37 + d) as char
    }
}

/// One byte, percent-encoded unless it is an ASCII letter or digit.
pub open spec fn percent_encoded_byte(b: u8) -> Seq<char> {
    if is_ascii_alphanumeric(b) {
        seq![b as char]
    } else {
        seq!['%', hex_digit(b / 16), hex_digit(b % 16)]
    }
}

/// A byte sequence percent-encoded with the set `NON_ALPHANUMERIC`.
pub open spec fn percent_encoded(bytes: Seq<u8>) -> Seq<char>
    decreases bytes.len(),
{
    if bytes.len() == 0 {
        Seq::empty()
    } else {
        percent_encoded(bytes.drop_last()) + percent_encoded_byte(bytes.last())
    }
}

/// Calls `percent_encoding::percent_encode(bytes, NON_ALPHANUMERIC)` and
/// writes the result with `to_string`: every byte that is not an ASCII letter
/// or digit becomes `%` and two upper-case hexadecimal digits.
#[verifier::external_body]
fn percent_encode_bytes(bytes: &[u8]) -> (r: String)
    ensures
        r@ == percent_encoded(bytes@),
{
    percent_encoding::percent_encode(bytes, percent_encoding::NON_ALPHANUMERIC).to_string()
}

/// What `Regex::new(pattern)` then `replace_all(haystack, replacement)`
/// gives: `None` when the pattern is not a valid regular expression.
pub uninterp spec fn regex_replaced(
    pattern: Seq<char>,
    haystack: Seq<char>,
    replacement: Seq<char>,
) -> Option<Seq<char>>;

/// Calls `regex::Regex::new` and, when the pattern compiles,
/// `Regex::replace_all`. The result is named by `regex_replaced`; regular
/// expression matching and the expansion of `$` in the replacement are not
/// stated here.
#[verifier::external_body]
fn regex_replace_all(pattern: &str, haystack: &str, replacement: &str) -> (r: Option<String>)
    ensures
        r matches Some(s) ==> regex_replaced(pattern@, haystack@, replacement@) == Some(s@),
        r is None ==> regex_replaced(pattern@, haystack@, replacement@) is None,
{
    match regex::Regex::new(pattern) {
        Ok(re) => Some(re.replace_all(haystack, replacement).into_owned()),
        Err(_) => None,
    }
}

// ---------------------------------------------------------------------------
// Decimal numbers
// ---------------------------------------------------------------------------

pub open spec fn decimal_digit(d: nat) -> char {
    (0x30 + d) as char
}

/// The decimal writing of `n`, without leading zeros (`u64::to_string`).
pub open spec fn decimal_text(n: nat) -> Seq<char>
    decreases n,
{
    if n < 10 {
        seq![decimal_digit(n)]
    } else {
        decimal_text(n / 10).push(decimal_digit(n % 10))
    }
}

fn digit_text(d: u64) -> (r: &'static str)
    requires
        d < 10,
    ensures
        r@ == seq![decimal_digit(d as nat)],
{
    let digits = "0123456789";
    proof {
        reveal_strlit("0123456789");
    }
    let r = digits.substring_char(d as usize, (d + 1) as usize);
    assert(r@ =~= seq![decimal_digit(d as nat)]);
    r
}

/// `n` written in decimal.
pub fn u64_decimal(n: u64) -> (r: String)
    ensures
        r@ == decimal_text(n as nat),
    decreases n,
{
    if n < 10 {
        digit_text(n).to_owned()
    } else {
        let mut r = u64_decimal(n / 10);
        r.append(digit_text(n % 10));
        r
    }
}

proof fn lemma_decimal_text_digits(m: nat)
    ensures
        decimal_text(m).len() > 0,
        all_ascii_digits(decimal_text(m)),
        decimal_value(decimal_text(m)) == m,
    decreases m,
{
    if m < 10 {
        let s = decimal_text(m);
        assert(s.drop_last() =~= Seq::<char>::empty());
        assert(decimal_value(Seq::<char>::empty()) == 0);
        assert(((0x30 + m) as char) as u32 == 0x30 + m);
    } else {
        lemma_decimal_text_digits(m / 10);
        let prev = decimal_text(m / 10);
        let s = decimal_text(m);
        assert(s.drop_last() =~= prev);
        assert(((0x30 + m % 10) as char) as u32 == 0x30 + m % 10);
        assert forall|i: int| 0 <= i < s.len() implies is_ascii_digit(#[trigger] s[i]) by {
            if i < prev.len() {
                assert(s[i] == prev[i]);
            }
        }
        vstd::arithmetic::div_mod::lemma_fundamental_div_mod(m as int, 10);
    }
}

/// Writing a number in decimal and reading it back as a `u32` gives the
/// number: the decimal writing keeps every digit, whatever the length.
pub proof fn lemma_decimal_parses_back(n: u32)
    ensures
        parse_u32(decimal_text(n as nat)) == Some(n),
{
    lemma_decimal_text_digits(n as nat);
    let s = decimal_text(n as nat);
    assert(is_ascii_digit(s[0]));
}

// ---------------------------------------------------------------------------
// The fingerprint, its key and the form
// ---------------------------------------------------------------------------

/// The browser the client claims to be.
pub open spec fn browser_agent() -> Seq<char> {
    "Mozilla/5.0 (Windows NT 10.0; Win64; x64; rv:91.0) Gecko/20100101 Firefox/91.0"@
}

/// The fingerprint, with its entry `n` still holding its recorded value.
pub open spec fn fingerprint_template() -> Seq<char> {
    FINGERPRINT@
}

/// The regular expression that finds the entry `n` of the fingerprint.
pub open spec fn entry_n_pattern() -> Seq<char> {
    r#"\{"key":"n","value":"[^"]+"\}"#@
}

/// The entry `n` holding the time `t`: the base64 of its decimal writing.
pub open spec fn entry_n(t: nat) -> Seq<char> {
    "{\"key\":\"n\",\"value\":\""@ + base64_text(encode_utf8(decimal_text(t))) + "\"}"@
}

/// The start of the six-hour window that holds the time `t`.
pub open spec fn time_window(t: nat) -> nat {
    (t - t % 21600) as nat
}

/// The fingerprint the client reports at time `t` (seconds since the epoch).
pub fn arkose_fingerprint(t: u64) -> (r: Option<String>)
    ensures
        r matches Some(s) ==> regex_replaced(entry_n_pattern(), fingerprint_template(), entry_n(t as nat)) == Some(s@),
        r is None ==> regex_replaced(entry_n_pattern(), fingerprint_template(), entry_n(t as nat)) is None,
{
    let n = u64_decimal(t);
    let encoded = base64_encode(n.as_str().as_bytes());
    let mut entry = "{\"key\":\"n\",\"value\":\"".to_owned();
    entry.append(encoded.as_str());
    entry.append("\"}");
    regex_replace_all(r#"\{"key":"n","value":"[^"]+"\}"#, FINGERPRINT, entry.as_str())
}

/// The key the fingerprint is encrypted with at time `t`: the browser name
/// followed by the start of the six-hour window, in decimal.
pub fn arkose_key(t: u64) -> (r: String)
    ensures
        r@ == browser_agent() + decimal_text(time_window(t as nat)),
{
    let mut r = "Mozilla/5.0 (Windows NT 10.0; Win64; x64; rv:91.0) Gecko/20100101 Firefox/91.0".to_owned();
    let w = t - t % 21600;
    r.append(u64_decimal(w).as_str());
    r
}

/// The form posted for a public key, from the encrypted fingerprint and the
/// random number `rnd` as text.
pub open spec fn arkose_form_text(ciphertext: Seq<u8>, rnd: Seq<char>) -> Seq<char> {
    "bda="@ + percent_encoded(encode_utf8(base64_text(ciphertext)))
        + "&public_key=35536E1E-65B4-4D96-9D97-6ADB7EFF8147&site=https%3A%2F%2Fchat.openai.com&userbrowser="@
        + percent_encoded(encode_utf8(browser_agent()))
        + "&capi_version=1.5.5&capi_mode=lightbox&style_theme=default&rnd="@ + rnd
}

pub fn arkose_form(ciphertext: &[u8], rnd: &str) -> (r: String)
    ensures
        r@ == arkose_form_text(ciphertext@, rnd@),
{
    let bda = base64_encode(ciphertext);
    let bda = percent_encode_bytes(bda.as_str().as_bytes());
    let agent = "Mozilla/5.0 (Windows NT 10.0; Win64; x64; rv:91.0) Gecko/20100101 Firefox/91.0";
    let bv = percent_encode_bytes(agent.as_bytes());
    let mut r = "bda=".to_owned();
    r.append(bda.as_str());
    r.append(
        "&public_key=35536E1E-65B4-4D96-9D97-6ADB7EFF8147&site=https%3A%2F%2Fchat.openai.com&userbrowser=",
    );
    r.append(bv.as_str());
    r.append("&capi_version=1.5.5&capi_mode=lightbox&style_theme=default&rnd=");
    r.append(rnd);
    r
}

/// Every time in one six-hour window gives the same key: the window starts
/// at a multiple of six hours, at or before the time, less than six hours
/// before it.
pub proof fn lemma_time_window(t: nat)
    ensures
        time_window(t) % 21600 == 0,
        time_window(t) <= t < time_window(t) + 21600,
        forall|u: nat| time_window(t) <= u < time_window(t) + 21600 ==> #[trigger] time_window(u) == time_window(t),
{
    let w = time_window(t);
    assert(w % 21600 == 0) by (nonlinear_arith)
        requires
            w == t - t % 21600,
    {
        vstd::arithmetic::div_mod::lemma_fundamental_div_mod(t as int, 21600);
    }
    assert forall|u: nat| w <= u < w + 21600 implies #[trigger] time_window(u) == w by {
        vstd::arithmetic::div_mod::lemma_fundamental_div_mod(t as int, 21600);
        vstd::arithmetic::div_mod::lemma_fundamental_div_mod(u as int, 21600);
        let q = t / 21600;
        assert(w == q * 21600);
        vstd::arithmetic::div_mod::lemma_fundamental_div_mod_converse(u as int, 21600, q as int, u - w);
    }
}

/// The recorded fingerprint: a JSON array of `{"key": .., "value": ..}`
/// entries describing a browser.
pub const FINGERPRINT: &'static str = r#"[{"key":"api_type","value":"js"},{"key":"p","value":1},{"key":"f","value":"d7cb86cd6508fe68d2d037b13e992101"},{"key":"n","value":"MTY5Nzk0OTYxNA=="},{"key":"wh","value":"84d782173e85192986bbe67d6df3d351|72627afbfd19a741c7da1732218301ac"},{"key":"enhanced_fp","value":[{"key":"webgl_extensions","value":"ANGLE_instanced_arrays;EXT_blend_minmax;EXT_color_buffer_half_float;EXT_disjoint_timer_query;EXT_float_blend;EXT_frag_depth;EXT_shader_texture_lod;EXT_texture_compression_bptc;EXT_texture_compression_rgtc;EXT_texture_filter_anisotropic;EXT_sRGB;KHR_parallel_shader_compile;OES_element_index_uint;OES_fbo_render_mipmap;OES_standard_derivatives;OES_texture_float;OES_texture_float_linear;OES_texture_half_float;OES_texture_half_float_linear;OES_vertex_array_object;WEBGL_color_buffer_float;WEBGL_compressed_texture_s3tc;WEBGL_compressed_texture_s3tc_srgb;WEBGL_debug_renderer_info;WEBGL_debug_shaders;WEBGL_depth_texture;WEBGL_draw_buffers;WEBGL_lose_context;WEBGL_multi_draw"},{"key":"webgl_extensions_hash","value":"58a5a04a5bef1a78fa88d5c5098bd237"},{"key":"webgl_renderer","value":"WebKit WebGL"},{"key":"webgl_vendor","value":"WebKit"},{"key":"webgl_version","value":"WebGL 1.0 (OpenGL ES 2.0 Chromium)"},{"key":"webgl_shading_language_version","value":"WebGL GLSL ES 1.0 (OpenGL ES GLSL ES 1.0 Chromium)"},{"key":"webgl_aliased_line_width_range","value":"[1, 1]"},{"key":"webgl_aliased_point_size_range","value":"[1, 1024]"},{"key":"webgl_antialiasing","value":"yes"},{"key":"webgl_bits","value":"8,8,24,8,8,0"},{"key":"webgl_max_params","value":"16,32,16384,1024,16384,16,16384,30,16,16,4095"},{"key":"webgl_max_viewport_dims","value":"[32767, 32767]"},{"key":"webgl_unmasked_vendor","value":"Google Inc. (NVIDIA)"},{"key":"webgl_unmasked_renderer","value":"ANGLE (NVIDIA, NVIDIA GeForce GTX 1660 Ti (0x00002182) Direct3D11 vs_5_0 ps_5_0, D3D11)"},{"key":"webgl_vsf_params","value":"23,127,127,23,127,127,23,127,127"},{"key":"webgl_vsi_params","value":"0,31,30,0,31,30,0,31,30"},{"key":"webgl_fsf_params","value":"23,127,127,23,127,127,23,127,127"},{"key":"webgl_fsi_params","value":"0,31,30,0,31,30,0,31,30"},{"key":"webgl_hash_webgl","value":"e61fae0b6dac189b76d9027691b781f4"},{"key":"user_agent_data_brands","value":"Chromium,Microsoft Edge,Not=A?Brand"},{"key":"user_agent_data_mobile","value":false},{"key":"navigator_connection_downlink","value":1.45},{"key":"navigator_connection_downlink_max","value":null},{"key":"network_info_rtt","value":400},{"key":"network_info_save_data","value":false},{"key":"network_info_rtt_type","value":null},{"key":"screen_pixel_depth","value":24},{"key":"navigator_device_memory","value":8},{"key":"navigator_languages","value":"zh-CN,en,en-GB,en-US"},{"key":"window_inner_width","value":0},{"key":"window_inner_height","value":0},{"key":"window_outer_width","value":2048},{"key":"window_outer_height","value":1104},{"key":"browser_detection_firefox","value":false},{"key":"browser_detection_brave","value":false},{"key":"audio_codecs","value":"{\"ogg\":\"probably\",\"mp3\":\"probably\",\"wav\":\"probably\",\"m4a\":\"maybe\",\"aac\":\"probably\"}"},{"key":"video_codecs","value":"{\"ogg\":\"probably\",\"h264\":\"probably\",\"webm\":\"probably\",\"mpeg4v\":\"\",\"mpeg4a\":\"\",\"theora\":\"\"}"},{"key":"media_query_dark_mode","value":false},{"key":"headless_browser_phantom","value":false},{"key":"headless_browser_selenium","value":false},{"key":"headless_browser_nightmare_js","value":false},{"key":"document__referrer","value":""},{"key":"window__ancestor_origins","value":["https://chat.openai.com"]},{"key":"window__tree_index","value":[2]},{"key":"window__tree_structure","value":"[[],[],[]]"},{"key":"window__location_href","value":"https://tcr9i.chat.openai.com/v2/1.5.5/enforcement.fbfc14b0d793c6ef8359e0e4b4a91f67.html#35536E1E-65B4-4D96-9D97-6ADB7EFF8147"},{"key":"client_config__sitedata_location_href","value":"https://chat.openai.com/c/ad26da8e-95b4-4a1f-a5c6-6c576ccf9c1f"},{"key":"client_config__surl","value":"https://tcr9i.chat.openai.com"},{"key":"mobile_sdk__is_sdk"},{"key":"client_config__language","value":null},{"key":"navigator_battery_charging","value":true},{"key":"audio_fingerprint","value":"124.04347527516074"}]},{"key":"fe","value":["DNT:unknown","L:zh-CN","D:24","PR:1.25","S:2048,1152","AS:2048,1104","TO:-480","SS:true","LS:true","IDB:true","B:false","ODB:true","CPUC:unknown","PK:Win32","CFP:550227445","FR:false","FOS:false","FB:false","JSF:","P:Chrome PDF Viewer,Chromium PDF Viewer,Microsoft Edge PDF Viewer,PDF Viewer,WebKit built-in PDF","T:0,false,false","H:6","SWF:false"]},{"key":"ife_hash","value":"c54f4135c23811b55c3354b8c69322a7"},{"key":"cs","value":1},{"key":"jsbd","value":"{\"HL\":5,\"NCE\":true,\"DT\":\"\",\"NWD\":\"false\",\"DOTO\":1,\"DMTO\":1}"}]"#;

} // verus!
