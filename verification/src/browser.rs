//! The built-in browser pane's address bar and page bookkeeping.
//!
//! Typed input becomes an HTTP(S) address, a local development server, or a
//! search; nothing else is ever navigated to. URL parsing is the `url`
//! crate's; deciding which candidate to parse and what to accept is this
//! module's.

use vstd::prelude::*;
use crate::text::{
    chars_of, decimal, has_prefix, is_white_space, path_join, join_path, parse_unsigned,
    parsed_unsigned, push_char, push_decimal, split_words, string_from, trim_chars, trimmed,
    white_space, words,
};

verus! {

/// A parsed absolute URL, reduced to what the browser reads of it.
#[derive(Debug, Clone, PartialEq, Eq)]
pub struct WebAddress {
    /// The URL's serialization.
    pub href: String,
    /// The scheme, without the colon.
    pub scheme: String,
    /// Whether the URL has a host.
    pub has_host: bool,
}

pub type AddressView = (Seq<char>, Seq<char>, bool);

impl View for WebAddress {
    type V = AddressView;

    open spec fn view(&self) -> AddressView {
        (self.href@, self.scheme@, self.has_host)
    }
}

/// What `url::Url::parse` makes of `input`: the serialization, scheme and
/// host presence of the parsed URL, or `None` when it does not parse.
pub uninterp spec fn url_parse(input: Seq<char>) -> Option<AddressView>;

/// What `url::Url::parse_with_params(base, [(name, value)])` makes of its
/// arguments, or the text of its error.
pub uninterp spec fn url_parse_with_param(base: Seq<char>, name: Seq<char>, value: Seq<char>) -> Result<AddressView, Seq<char>>;

/// The string value of the top-level field `field` of the JSON object in
/// `body`, when `body` parses as JSON (`serde_json`) and the field is a string.
pub uninterp spec fn json_string_field(body: Seq<char>, field: Seq<char>) -> Option<Seq<char>>;

/// Calls `url::Url::parse`; the result is named by [`url_parse`].
#[verifier::external_body]
fn parse_url(input: &str) -> (address: Option<WebAddress>)
    ensures
        match address {
            Some(a) => url_parse(input@) == Some(a@),
            None => url_parse(input@) is None,
        },
{
    match url::Url::parse(input) {
        Ok(url) => Some(WebAddress {
            href: url.as_str().to_owned(),
            scheme: url.scheme().to_owned(),
            has_host: url.host().is_some(),
        }),
        Err(_) => None,
    }
}

/// Calls `url::Url::parse_with_params` with one parameter; the result is
/// named by [`url_parse_with_param`].
#[verifier::external_body]
fn parse_url_with_param(base: &str, name: &str, value: &str) -> (address: Result<WebAddress, String>)
    ensures
        match address {
            Ok(a) => url_parse_with_param(base@, name@, value@) == Ok::<AddressView, Seq<char>>(a@),
            Err(e) => url_parse_with_param(base@, name@, value@) == Err::<AddressView, Seq<char>>(e@),
        },
{
    match url::Url::parse_with_params(base, &[(name, value)]) {
        Ok(url) => Ok(WebAddress {
            href: url.as_str().to_owned(),
            scheme: url.scheme().to_owned(),
            has_host: url.host().is_some(),
        }),
        Err(error) => Err(error.to_string()),
    }
}

/// Parses `body` with `serde_json` and reads the string field `field`; the
/// result is named by [`json_string_field`].
#[verifier::external_body]
fn read_json_string_field(body: &str, field: &str) -> (value: Option<String>)
    ensures
        match value {
            Some(v) => json_string_field(body@, field@) == Some(v@),
            None => json_string_field(body@, field@) is None,
        },
{
    let parsed: serde_json::Value = serde_json::from_str(body).ok()?;
    parsed.get(field)?.as_str().map(str::to_owned)
}

pub open spec fn invalid_url_message() -> Seq<char> {
    "That URL is not valid."@
}

pub open spec fn not_http_message() -> Seq<char> {
    "Browser supports only HTTP and HTTPS addresses."@
}

pub open spec fn empty_input_message() -> Seq<char> {
    "Enter a URL or search query."@
}

/// An address the browser accepts: HTTP or HTTPS with a host.
pub open spec fn is_web(address: AddressView) -> bool {
    (address.1 == "http"@ || address.1 == "https"@) && address.2
}

/// Accepts only HTTP(S) addresses with a host.
pub open spec fn spec_validate_http(address: AddressView) -> Result<AddressView, Seq<char>> {
    if is_web(address) {
        Ok(address)
    } else {
        Err(not_http_message())
    }
}

/// Accepts a parsed address only if it is HTTP(S) with a host.
pub fn validate_http(address: WebAddress) -> (result: Result<WebAddress, String>)
    ensures
        match result {
            Ok(a) => spec_validate_http(address@) == Ok::<AddressView, Seq<char>>(a@),
            Err(e) => spec_validate_http(address@) == Err::<AddressView, Seq<char>>(e@),
        },
{
    let http = "http".to_owned();
    let https = "https".to_owned();
    if (address.scheme == http || address.scheme == https) && address.has_host {
        Ok(address)
    } else {
        Err("Browser supports only HTTP and HTTPS addresses.".to_owned())
    }
}

/// The part of `s` before the first `/`, `?` or `#`.
pub open spec fn authority_len(s: Seq<char>) -> nat
    decreases s.len(),
{
    if s.len() == 0 || s[0] == '/' || s[0] == '?' || s[0] == '#' {
        0
    } else {
        1 + authority_len(s.drop_first())
    }
}

pub open spec fn authority(s: Seq<char>) -> Seq<char> {
    s.subrange(0, authority_len(s) as int)
}

pub proof fn lemma_authority_len(s: Seq<char>)
    ensures
        authority_len(s) <= s.len(),
        forall|i: int| 0 <= i < authority_len(s) ==> s[i] != '/' && s[i] != '?' && s[i] != '#',
        authority_len(s) < s.len() ==> (s[authority_len(s) as int] == '/' || s[authority_len(s) as int] == '?' || s[authority_len(s) as int] == '#'),
    decreases s.len(),
{
    if !(s.len() == 0 || s[0] == '/' || s[0] == '?' || s[0] == '#') {
        lemma_authority_len(s.drop_first());
        assert forall|i: int| 0 <= i < authority_len(s) implies s[i] != '/' && s[i] != '?' && s[i] != '#' by {
            if i > 0 {
                assert(s.drop_first()[i - 1] == s[i]);
            }
        }
    }
}

/// The characters of `s` before the first `/`, `?` or `#`.
pub fn authority_chars(s: &Vec<char>) -> (a: Vec<char>)
    ensures
        a@ == authority(s@),
{
    proof {
        lemma_authority_len(s@);
    }
    let mut a: Vec<char> = Vec::new();
    let mut i: usize = 0;
    while i < s.len() && s[i] != '/' && s[i] != '?' && s[i] != '#'
        invariant
            i <= authority_len(s@),
            authority_len(s@) <= s@.len(),
            a@ == s@.subrange(0, i as int),
            forall|k: int| 0 <= k < authority_len(s@) ==> s@[k] != '/' && s@[k] != '?' && s@[k] != '#',
            authority_len(s@) < s@.len() ==> (s@[authority_len(s@) as int] == '/' || s@[authority_len(s@) as int] == '?' || s@[authority_len(s@) as int] == '#'),
        decreases s@.len() - i,
    {
        a.push(s[i]);
        assert(s@.subrange(0, i + 1) =~= s@.subrange(0, i as int).push(s@[i as int]));
        i = i + 1;
    }
    a
}

/// The host part of typed input that the caller checks for being an IP
/// address: the trimmed input up to the first `/`, `?` or `#`.
pub open spec fn input_host(input: Seq<char>) -> Seq<char> {
    authority(trimmed(input))
}

pub fn address_host(input: &str) -> (host: String)
    ensures
        host@ == input_host(input@),
{
    let chars = chars_of(input);
    let trimmed_input = trim_chars(&chars);
    let host = authority_chars(&trimmed_input);
    string_from(host.as_slice())
}

/// ASCII lower-casing (`str::to_ascii_lowercase`).
pub open spec fn ascii_lower(c: char) -> char {
    if 'A' <= c && c <= 'Z' {
        ((c as u8) + 32) as char
    } else {
        c
    }
}

/// `localhost`, possibly with a port, case-insensitively.
pub open spec fn is_localhost_name(host: Seq<char>) -> bool {
    let lower = host.map_values(|c: char| ascii_lower(c));
    has_prefix(lower, "localhost"@) && (lower.len() == 9 || lower[9] == ':')
}

/// The input names this machine: `localhost` (with an optional port) or,
/// as the caller determined, an IP address.
pub open spec fn is_local_host(input: Seq<char>, host_is_ip: bool) -> bool {
    is_localhost_name(authority(input)) || host_is_ip
}

/// Whether `host` is `localhost`, possibly with a port.
fn localhost_name(host: &Vec<char>) -> (result: bool)
    ensures
        result == is_localhost_name(host@),
{
    proof {
        reveal_strlit("localhost");
    }
    let name = chars_of("localhost");
    if host.len() < 9 {
        return false;
    }
    let mut i: usize = 0;
    while i < 9
        invariant
            name@ == "localhost"@,
            name@.len() == 9,
            host@.len() >= 9,
            i <= 9,
            forall|k: int| 0 <= k < i ==> ascii_lower(host@[k]) == name@[k],
        decreases 9 - i,
    {
        let c = host[i];
        let lower = if 'A' <= c && c <= 'Z' {
            ((c as u8) + 32) as char
        } else {
            c
        };
        if lower != name[i] {
            let ghost l = host@.map_values(|c: char| ascii_lower(c));
            assert(l[i as int] == ascii_lower(host@[i as int]));
            assert(l.subrange(0, 9)[i as int] != "localhost"@[i as int]);
            return false;
        }
        i = i + 1;
    }
    let ghost l = host@.map_values(|c: char| ascii_lower(c));
    assert(l.subrange(0, 9) =~= "localhost"@);
    host.len() == 9 || host[9] == ':'
}

/// `s.parse::<u16>()` succeeds.
pub open spec fn parses_as_port(s: Seq<char>) -> bool {
    parsed_unsigned(s, 65535) is Some
}

/// Whether `s`, from `start` on, parses as a `u16`.
fn port_parses(s: &Vec<char>, start: usize) -> (result: bool)
    requires
        start <= s@.len(),
    ensures
        result == parses_as_port(s@.subrange(start as int, s@.len() as int)),
{
    parse_unsigned(s, start, 65535).is_some()
}

/// The index of the last `:` in `s`, if any.
pub open spec fn last_colon(s: Seq<char>) -> Option<int>
    decreases s.len(),
{
    if s.len() == 0 {
        None
    } else if s.last() == ':' {
        Some(s.len() - 1)
    } else {
        last_colon(s.drop_last())
    }
}

/// Any colon in the authority introduces a valid port, so the input is not
/// `scheme:rest`.
pub open spec fn has_no_scheme_like_colon(input: Seq<char>) -> bool {
    let host = authority(input);
    match last_colon(host) {
        None => true,
        Some(at) => parses_as_port(host.subrange(at + 1, host.len() as int)),
    }
}

/// Looks like a host name: no white space, and a dot or a local host.
pub open spec fn looks_like_host(input: Seq<char>, host_is_ip: bool) -> bool {
    (forall|i: int| 0 <= i < input.len() ==> !is_white_space(#[trigger] input[i])) && (
    input.contains('.') || is_local_host(input, host_is_ip))
}

/// Whether `s` contains `"://"`.
pub open spec fn has_scheme_separator(s: Seq<char>) -> bool {
    exists|i: int| #[trigger] separator_at(s, i)
}

/// `"://"` starts at `i`.
pub open spec fn separator_at(s: Seq<char>, i: int) -> bool {
    0 <= i && i + 3 <= s.len() && s[i] == ':' && s[i + 1] == '/' && s[i + 2] == '/'
}

/// Parses `candidate` and accepts it only as HTTP(S).
pub open spec fn parse_web(candidate: Seq<char>) -> Result<AddressView, Seq<char>> {
    match url_parse(candidate) {
        Some(a) => spec_validate_http(a),
        None => Err(invalid_url_message()),
    }
}

/// What typed input resolves to. `host_is_ip` says whether
/// [`input_host`]`(input)` is an IP address (optionally with a port).
pub open spec fn spec_resolve_input(input: Seq<char>, host_is_ip: bool) -> Result<AddressView, Seq<char>> {
    let text = trimmed(input);
    if text.len() == 0 {
        Err(empty_input_message())
    } else if has_prefix(text, "http://"@) || has_prefix(text, "https://"@) {
        parse_web(text)
    } else if is_local_host(text, host_is_ip) {
        parse_web("http://"@ + text)
    } else if looks_like_host(text, host_is_ip) && has_no_scheme_like_colon(text) {
        parse_web("https://"@ + text)
    } else if url_parse(text) is Some {
        spec_validate_http(url_parse(text)->0)
    } else if has_scheme_separator(text) {
        Err(invalid_url_message())
    } else {
        url_parse_with_param("https://duckduckgo.com/"@, "q"@, text)
    }
}

/// Parses `candidate` and accepts it only as HTTP(S).
fn parse_web_exec(candidate: &str) -> (result: Result<WebAddress, String>)
    ensures
        match result {
            Ok(a) => parse_web(candidate@) == Ok::<AddressView, Seq<char>>(a@),
            Err(e) => parse_web(candidate@) == Err::<AddressView, Seq<char>>(e@),
        },
{
    match parse_url(candidate) {
        Some(address) => validate_http(address),
        None => Err("That URL is not valid.".to_owned()),
    }
}

/// Whether `s` contains `c`.
fn has_char(s: &Vec<char>, c: char) -> (found: bool)
    ensures
        found == s@.contains(c),
{
    let mut i: usize = 0;
    while i < s.len()
        invariant
            i <= s@.len(),
            forall|k: int| 0 <= k < i ==> s@[k] != c,
        decreases s@.len() - i,
    {
        if s[i] == c {
            return true;
        }
        i = i + 1;
    }
    false
}

/// Resolves what was typed into the address bar. `host_is_ip` must say
/// whether [`address_host`]`(input)` is an IP address, optionally with a port.
#[verifier::loop_isolation(false)]
pub fn resolve_input(input: &str, host_is_ip: bool) -> (result: Result<WebAddress, String>)
    ensures
        match result {
            Ok(a) => spec_resolve_input(input@, host_is_ip) == Ok::<AddressView, Seq<char>>(a@),
            Err(e) => spec_resolve_input(input@, host_is_ip) == Err::<AddressView, Seq<char>>(e@),
        },
{
    let chars = chars_of(input);
    let text_chars = trim_chars(&chars);
    let text = string_from(text_chars.as_slice());
    if text_chars.len() == 0 {
        return Err("Enter a URL or search query.".to_owned());
    }
    if crate::text::starts_with(&text_chars, "http://") || crate::text::starts_with(&text_chars, "https://") {
        return parse_web_exec(text.as_str());
    }
    let host = authority_chars(&text_chars);
    let local = localhost_name(&host) || host_is_ip;
    if local {
        let mut candidate = "http://".to_owned();
        candidate.append(text.as_str());
        return parse_web_exec(candidate.as_str());
    }
    // Looks like a host: no white space, and a dot.
    let mut spaced = false;
    let mut i: usize = 0;
    while i < text_chars.len()
        invariant
            i <= text_chars@.len(),
            spaced == exists|k: int| 0 <= k < i && is_white_space(#[trigger] text_chars@[k]),
        decreases text_chars@.len() - i,
    {
        if white_space(text_chars[i]) {
            spaced = true;
        }
        i = i + 1;
    }
    let hostlike = !spaced && has_char(&text_chars, '.');
    let no_scheme_colon = match last_colon_exec(&host) {
        None => true,
        Some(at) => port_parses(&host, at + 1),
    };
    if hostlike && no_scheme_colon {
        let mut candidate = "https://".to_owned();
        candidate.append(text.as_str());
        return parse_web_exec(candidate.as_str());
    }
    if let Some(address) = parse_url(text.as_str()) {
        return validate_http(address);
    }
    let mut k: usize = 0;
    while text_chars.len() >= 3 && k <= text_chars.len() - 3
        invariant
            forall|j: int| 0 <= j < k ==> !#[trigger] separator_at(text_chars@, j),
        decreases text_chars@.len() - k,
    {
        if text_chars[k] == ':' && text_chars[k + 1] == '/' && text_chars[k + 2] == '/' {
            assert(separator_at(text_chars@, k as int));
            return Err("That URL is not valid.".to_owned());
        }
        k = k + 1;
    }
    proof {
        assert forall|j: int| !#[trigger] separator_at(text_chars@, j) by {
            if separator_at(text_chars@, j) {
                assert(j < k);
            }
        }
    }
    parse_url_with_param("https://duckduckgo.com/", "q", text.as_str())
}

/// The index of the last `:` in `s`.
pub fn last_colon_exec(s: &Vec<char>) -> (at: Option<usize>)
    ensures
        match at {
            Some(i) => last_colon(s@) == Some(i as int) && i < s@.len(),
            None => last_colon(s@) is None,
        },
{
    let mut i: usize = s.len();
    assert(s@.subrange(0, i as int) =~= s@);
    while i > 0
        invariant
            i <= s@.len(),
            last_colon(s@) == last_colon(s@.subrange(0, i as int)),
        decreases i,
    {
        let ghost prefix = s@.subrange(0, i as int);
        assert(prefix.drop_last() =~= s@.subrange(0, i - 1));
        if s[i - 1] == ':' {
            return Some(i - 1);
        }
        i = i - 1;
    }
    None
}

/// Whatever the input, the browser is only ever sent to an HTTP(S) address
/// with a host, or to the search engine's results for the trimmed input.
pub proof fn lemma_only_web_addresses_are_resolved(input: Seq<char>, host_is_ip: bool)
    ensures
        spec_resolve_input(input, host_is_ip) matches Ok(address) ==> is_web(address)
            || spec_resolve_input(input, host_is_ip) == url_parse_with_param(
            "https://duckduckgo.com/"@,
            "q"@,
            trimmed(input),
        ),
{
}

/// The tab title for a page title: its words joined by single spaces, or
/// "Browser" when it has none.
pub open spec fn spec_display_title(title: Seq<char>) -> Seq<char> {
    let joined = join_words(words(title));
    if joined.len() == 0 {
        "Browser"@
    } else {
        joined
    }
}

/// The words joined by single spaces.
pub open spec fn join_words(ws: Seq<Seq<char>>) -> Seq<char>
    decreases ws.len(),
{
    if ws.len() == 0 {
        Seq::empty()
    } else if ws.len() == 1 {
        ws[0]
    } else {
        join_words(ws.drop_last()) + seq![' '] + ws.last()
    }
}

/// Normalizes a document title for a tab.
pub fn display_title(title: &str) -> (shown: String)
    ensures
        shown@ == spec_display_title(title@),
{
    let chars = chars_of(title);
    let ws = split_words(&chars);
    let mut joined: Vec<char> = Vec::new();
    let mut i: usize = 0;
    while i < ws.len()
        invariant
            i <= ws@.len(),
            joined@ == join_words(ws@.subrange(0, i as int).map_values(|w: Vec<char>| w@)),
        decreases ws@.len() - i,
    {
        let ghost prefix = ws@.subrange(0, i as int).map_values(|w: Vec<char>| w@);
        let ghost next = ws@.subrange(0, i + 1).map_values(|w: Vec<char>| w@);
        proof {
            assert(next.drop_last() =~= prefix);
            assert(next.last() == ws@[i as int]@);
        }
        if i > 0 {
            joined.push(' ');
        }
        let word = &ws[i];
        let mut k: usize = 0;
        let ghost start = joined@;
        while k < word.len()
            invariant
                k <= word@.len(),
                joined@ == start + word@.subrange(0, k as int),
            decreases word@.len() - k,
        {
            joined.push(word[k]);
            assert(word@.subrange(0, k + 1) =~= word@.subrange(0, k as int).push(word@[k as int]));
            k = k + 1;
        }
        proof {
            assert(word@.subrange(0, word@.len() as int) =~= word@);
            if i == 0 {
                assert(joined@ =~= join_words(next));
            } else {
                assert(joined@ =~= join_words(next));
            }
        }
        i = i + 1;
    }
    proof {
        assert(ws@.subrange(0, ws@.len() as int) =~= ws@);
    }
    if joined.len() == 0 {
        "Browser".to_owned()
    } else {
        string_from(joined.as_slice())
    }
}

/// The HTML escape of one character.
pub open spec fn html_escape_char(c: char) -> Seq<char> {
    if c == '&' {
        "&amp;"@
    } else if c == '<' {
        "&lt;"@
    } else if c == '>' {
        "&gt;"@
    } else if c == '"' {
        "&quot;"@
    } else if c == '\'' {
        "&#39;"@
    } else {
        seq![c]
    }
}

/// `text` with `& < > " '` replaced by their HTML character references.
pub open spec fn html_escaped(text: Seq<char>) -> Seq<char>
    decreases text.len(),
{
    if text.len() == 0 {
        Seq::empty()
    } else {
        html_escaped(text.drop_last()) + html_escape_char(text.last())
    }
}

/// Escapes text for inclusion in the local error page.
pub fn escape_html(text: &str) -> (escaped: String)
    ensures
        escaped@ == html_escaped(text@),
{
    let chars = chars_of(text);
    let mut out: Vec<char> = Vec::new();
    let mut i: usize = 0;
    while i < chars.len()
        invariant
            chars@ == text@,
            i <= chars@.len(),
            out@ == html_escaped(chars@.subrange(0, i as int)),
        decreases chars@.len() - i,
    {
        let c = chars[i];
        let ghost before = out@;
        proof {
            assert(chars@.subrange(0, i + 1).drop_last() =~= chars@.subrange(0, i as int));
            reveal_strlit("&amp;");
            reveal_strlit("&lt;");
            reveal_strlit("&gt;");
            reveal_strlit("&quot;");
            reveal_strlit("&#39;");
        }
        if c == '&' {
            out.push('&'); out.push('a'); out.push('m'); out.push('p'); out.push(';');
        } else if c == '<' {
            out.push('&'); out.push('l'); out.push('t'); out.push(';');
        } else if c == '>' {
            out.push('&'); out.push('g'); out.push('t'); out.push(';');
        } else if c == '"' {
            out.push('&'); out.push('q'); out.push('u'); out.push('o'); out.push('t'); out.push(';');
        } else if c == '\'' {
            out.push('&'); out.push('#'); out.push('3'); out.push('9'); out.push(';');
        } else {
            out.push(c);
        }
        assert(out@ =~= before + html_escape_char(c));
        i = i + 1;
    }
    assert(chars@.subrange(0, chars@.len() as int) =~= chars@);
    string_from(out.as_slice())
}

/// The FNV-1a offset basis and prime for 64-bit hashes.
pub const FNV_OFFSET: u64 = 0xcbf29ce484222325;
pub const FNV_PRIME: u64 = 0x100000001b3;

/// The 64-bit FNV-1a hash of `bytes`.
pub open spec fn fnv1a(bytes: Seq<u8>) -> u64
    decreases bytes.len(),
{
    if bytes.len() == 0 {
        FNV_OFFSET
    } else {
        vstd::wrapping::u64_specs::wrapping_mul(fnv1a(bytes.drop_last()) ^ (bytes.last() as u64), FNV_PRIME)
    }
}

/// The lower-case hexadecimal digit for `d`, below sixteen.
pub open spec fn hex_digit(d: u64) -> char {
    if d < 10 {
        ((d + 48) as u8) as char
    } else {
        ((d + 87) as u8) as char
    }
}

/// `value` as sixteen lower-case hexadecimal digits (`{:016x}`).
pub open spec fn hex16(value: u64) -> Seq<char> {
    Seq::new(16, |k: int| hex_digit((value >> ((60 - 4 * k) as u64)) & 15))
}

/// The file that remembers a browser instance's address: under the plugin
/// data directory, named by the hash of the space key and the instance id.
pub open spec fn spec_state_path(data: Seq<char>, space: Seq<char>, instance: u64) -> Seq<char> {
    path_join(
        path_join(data, "instances"@),
        hex16(fnv1a(vstd::utf8::encode_utf8(space))) + seq!['-'] + decimal(instance as nat) + ".url"@,
    )
}

/// Where a browser instance of `space` saves its address.
pub fn state_path(data: &str, space: &str, instance: u64) -> (path: String)
    ensures
        path@ == spec_state_path(data@, space@, instance),
{
    let bytes = space.as_bytes();
    let mut hash: u64 = FNV_OFFSET;
    let mut i: usize = 0;
    while i < bytes.len()
        invariant
            i <= bytes@.len(),
            bytes@ == vstd::utf8::encode_utf8(space@),
            hash == fnv1a(bytes@.subrange(0, i as int)),
        decreases bytes@.len() - i,
    {
        proof {
            assert(bytes@.subrange(0, i + 1).drop_last() =~= bytes@.subrange(0, i as int));
        }
        hash = (hash ^ (bytes[i] as u64)).wrapping_mul(FNV_PRIME);
        i = i + 1;
    }
    assert(bytes@.subrange(0, bytes@.len() as int) =~= bytes@);
    let mut name: Vec<char> = Vec::new();
    let mut k: usize = 0;
    while k < 16
        invariant
            k <= 16,
            name@ == hex16(hash).subrange(0, k as int),
        decreases 16 - k,
    {
        let shift: u64 = 60 - 4 * (k as u64);
        let d = (hash >> shift) & 15;
        assert(d < 16) by (bit_vector)
            requires
                d == (hash >> shift) & 15,
        ;
        let c = if d < 10 {
            ((d + 48) as u8) as char
        } else {
            ((d + 87) as u8) as char
        };
        name.push(c);
        assert(name@ =~= hex16(hash).subrange(0, k + 1));
        k = k + 1;
    }
    name.push('-');
    push_decimal(&mut name, instance);
    name.push('.');
    name.push('u');
    name.push('r');
    name.push('l');
    proof {
        reveal_strlit(".url");
        assert(name@ =~= hex16(hash) + seq!['-'] + decimal(instance as nat) + ".url"@);
    }
    let file = string_from(name.as_slice());
    let dir = join_path(data, "instances");
    join_path(dir.as_str(), file.as_str())
}

/// Different numbers are written differently.
pub proof fn lemma_decimal_injective(a: nat, b: nat)
    requires
        decimal(a) == decimal(b),
    ensures
        a == b,
    decreases a + b,
{
    lemma_decimal_long(a);
    lemma_decimal_long(b);
    if a < 10 && b < 10 {
        assert(decimal(a) == seq![crate::text::digit_char(a)]);
        assert(decimal(b) == seq![crate::text::digit_char(b)]);
        assert(decimal(a)[0] == crate::text::digit_char(a));
        assert(decimal(b)[0] == crate::text::digit_char(b));
        lemma_digit_char_injective(a, b);
    } else if a >= 10 && b >= 10 {
        let (da, db) = (decimal(a), decimal(b));
        assert(da.drop_last() == decimal(a / 10));
        assert(db.drop_last() == decimal(b / 10));
        lemma_decimal_injective(a / 10, b / 10);
        assert(da.last() == db.last());
        lemma_digit_char_injective(a % 10, b % 10);
    }
}

proof fn lemma_digit_char_injective(a: nat, b: nat)
    requires
        a < 10,
        b < 10,
        crate::text::digit_char(a) == crate::text::digit_char(b),
    ensures
        a == b,
{
    let (x, y) = ((a + 48) as u8, (b + 48) as u8);
    assert(x as char == y as char);
    assert((x as char) as u32 == x as u32);
    assert((y as char) as u32 == y as u32);
}

/// The notation of a number of ten or more has at least two digits.
pub proof fn lemma_decimal_long(n: nat)
    ensures
        decimal(n).len() >= 1,
        n >= 10 ==> decimal(n).len() >= 2,
    decreases n,
{
    if n >= 10 {
        lemma_decimal_long(n / 10);
    }
}

/// Two instances of one space never share a state file.
pub proof fn lemma_instances_do_not_share_state(data: Seq<char>, space: Seq<char>, a: u64, b: u64)
    requires
        a != b,
    ensures
        spec_state_path(data, space, a) != spec_state_path(data, space, b),
{
    reveal_strlit(".url");
    let dir = path_join(data, "instances"@);
    let hash = hex16(fnv1a(vstd::utf8::encode_utf8(space)));
    let fa = hash + seq!['-'] + decimal(a as nat) + ".url"@;
    let fb = hash + seq!['-'] + decimal(b as nat) + ".url"@;
    assert(fa[0] == hash[0]);
    assert(fb[0] == hash[0]);
    let h = fnv1a(vstd::utf8::encode_utf8(space));
    let d0 = (h >> 60u64) & 15;
    assert(d0 < 16) by (bit_vector)
        requires
            d0 == (h >> 60u64) & 15,
    ;
    assert(hash[0] == hex_digit(d0));
    assert(hash[0] != '/');
    if spec_state_path(data, space, a) == spec_state_path(data, space, b) {
        let pa = spec_state_path(data, space, a);
        let pb = spec_state_path(data, space, b);
        let prefix_len = pa.len() - fa.len();
        assert(pa.subrange(prefix_len, pa.len() as int) =~= fa);
        assert(pb.subrange(prefix_len, pb.len() as int) =~= fb);
        assert(fa == fb);
        let start: int = hash.len() as int + 1;
        let end_a: int = fa.len() - 4;
        assert(fa.subrange(start, end_a) =~= decimal(a as nat));
        assert(fb.subrange(start, end_a) =~= decimal(b as nat));
        lemma_decimal_injective(a as nat, b as nat);
    }
}

/// What the page's address bar asks of the browser.
#[derive(Debug, Clone, PartialEq, Eq)]
pub enum BrowserEvent {
    Navigate(String),
    Back,
    Forward,
    Reload,
    Stop,
    FocusAddress,
    FocusPane,
    /// The web view reports a new document title.
    TitleChanged(String),
    /// The web view started loading an address.
    LoadStarted(String),
    /// The web view finished loading an address.
    LoadFinished(String),
}

pub enum EventView {
    Navigate(Seq<char>),
    Back,
    Forward,
    Reload,
    Stop,
    FocusAddress,
    FocusPane,
    TitleChanged(Seq<char>),
    LoadStarted(Seq<char>),
    LoadFinished(Seq<char>),
}

impl View for BrowserEvent {
    type V = EventView;

    open spec fn view(&self) -> EventView {
        match self {
            BrowserEvent::Navigate(value) => EventView::Navigate(value@),
            BrowserEvent::Back => EventView::Back,
            BrowserEvent::Forward => EventView::Forward,
            BrowserEvent::Reload => EventView::Reload,
            BrowserEvent::Stop => EventView::Stop,
            BrowserEvent::FocusAddress => EventView::FocusAddress,
            BrowserEvent::FocusPane => EventView::FocusPane,
            BrowserEvent::TitleChanged(title) => EventView::TitleChanged(title@),
            BrowserEvent::LoadStarted(url) => EventView::LoadStarted(url@),
            BrowserEvent::LoadFinished(url) => EventView::LoadFinished(url@),
        }
    }
}

/// The event a message from the page's bridge script asks for: its `action`
/// field names it, and navigation carries the address in `value`.
pub open spec fn spec_decode_command(body: Seq<char>) -> Option<EventView> {
    match json_string_field(body, "action"@) {
        Some(action) => if action == "navigate"@ {
            match json_string_field(body, "value"@) {
                Some(value) => Some(EventView::Navigate(value)),
                None => None,
            }
        } else if action == "back"@ {
            Some(EventView::Back)
        } else if action == "forward"@ {
            Some(EventView::Forward)
        } else if action == "reload"@ {
            Some(EventView::Reload)
        } else if action == "stop"@ {
            Some(EventView::Stop)
        } else if action == "focus-address"@ {
            Some(EventView::FocusAddress)
        } else if action == "focus"@ {
            Some(EventView::FocusPane)
        } else {
            None
        },
        None => None,
    }
}

/// Decodes a JSON message from the page's bridge script.
pub fn decode_command(body: &str) -> (event: Option<BrowserEvent>)
    ensures
        match event {
            Some(e) => spec_decode_command(body@) == Some(e@),
            None => spec_decode_command(body@) is None,
        },
{
    let action = match read_json_string_field(body, "action") {
        Some(action) => action,
        None => return None,
    };
    if action == "navigate".to_owned() {
        match read_json_string_field(body, "value") {
            Some(value) => Some(BrowserEvent::Navigate(value)),
            None => None,
        }
    } else if action == "back".to_owned() {
        Some(BrowserEvent::Back)
    } else if action == "forward".to_owned() {
        Some(BrowserEvent::Forward)
    } else if action == "reload".to_owned() {
        Some(BrowserEvent::Reload)
    } else if action == "stop".to_owned() {
        Some(BrowserEvent::Stop)
    } else if action == "focus-address".to_owned() {
        Some(BrowserEvent::FocusAddress)
    } else if action == "focus".to_owned() {
        Some(BrowserEvent::FocusPane)
    } else {
        None
    }
}

/// An address a page may navigate to in place.
pub open spec fn spec_is_http_url(url: Seq<char>) -> bool {
    match url_parse(url) {
        Some(a) => a.1 == "http"@ || a.1 == "https"@,
        None => false,
    }
}

/// Whether `url` parses with an HTTP(S) scheme.
pub fn is_http_url(url: &str) -> (http: bool)
    ensures
        http == spec_is_http_url(url@),
{
    match parse_url(url) {
        Some(address) => address.scheme == "http".to_owned() || address.scheme == "https".to_owned(),
        None => false,
    }
}

/// Navigation the web view may perform itself: HTTP(S), or the blank page.
pub fn is_allowed_navigation(url: &str) -> (allowed: bool)
    ensures
        allowed == (spec_is_http_url(url@) || url@ == "about:blank"@),
{
    is_http_url(url) || url.to_owned() == "about:blank".to_owned()
}

/// A saved address is restored only if it is still an HTTP(S) address.
pub fn restorable_address(saved: &str) -> (address: Option<String>)
    ensures
        match address {
            Some(a) => a@ == trimmed(saved@) && spec_is_http_url(trimmed(saved@)),
            None => !spec_is_http_url(trimmed(saved@)),
        },
{
    let chars = chars_of(saved);
    let value = string_from(trim_chars(&chars).as_slice());
    if is_http_url(value.as_str()) {
        Some(value)
    } else {
        None
    }
}

} // verus!
