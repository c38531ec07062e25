//! Finding the browser to attach to: an explicit endpoint, or the
//! `DevToolsActivePort` file in the browser profile of a release channel.
use crate::text::{
    dec, line_pieces, owned, parse_bounded, parse_u64_max, push_all, push_str, split_lines,
    str_eq, string_from_chars, trim, trim_chars, u64_dec,
};
use vstd::prelude::*;

verus! {

/// A Chromium-based browser the tool can attach to automatically. Both speak
/// the same protocol; they differ in where their profile lives.
#[derive(Clone, Copy, Debug, PartialEq, Eq, Structural)]
pub enum Browser {
    Chrome,
    Edge,
}

/// The operating system, which decides where profiles live.
#[derive(Clone, Copy, Debug, PartialEq, Eq, Structural)]
pub enum Os {
    MacOs,
    Linux,
    Windows,
}

/// Why no endpoint could be found.
#[derive(Debug)]
pub enum BrowserError {
    /// A browser name other than `chrome`, `edge` or `msedge`.
    UnknownBrowser(String),
    /// A channel the browser does not have.
    UnknownChannel(Browser, String),
    /// Edge Canary on Linux.
    EdgeCanaryOnLinux,
    /// The `DevToolsActivePort` file at the given path could not be read.
    ActivePortUnreadable(String, Browser),
    /// The file does not hold two non-blank lines; carries its trimmed text.
    InvalidActivePortContent(String),
    /// The first line is not a port number.
    InvalidPort(String),
    /// The port is 0.
    PortZero(Browser),
}

/// The browser a `--browser` value names.
pub open spec fn browser_named(name: Seq<char>) -> Option<Browser> {
    if name == "chrome"@ {
        Some(Browser::Chrome)
    } else if name == "edge"@ || name == "msedge"@ {
        Some(Browser::Edge)
    } else {
        None
    }
}

pub open spec fn label_spec(b: Browser) -> Seq<char> {
    match b {
        Browser::Chrome => "Chrome"@,
        Browser::Edge => "Microsoft Edge"@,
    }
}

pub open spec fn scheme_spec(b: Browser) -> Seq<char> {
    match b {
        Browser::Chrome => "chrome"@,
        Browser::Edge => "edge"@,
    }
}

/// Where each browser keeps the profile of each release channel, relative
/// to the home directory (or, on Windows, to `%LOCALAPPDATA%`). `stable`
/// has the browser's own name as an alias.
pub open spec fn profile_dir_spec(b: Browser, os: Os, channel: Seq<char>) -> Option<Seq<char>> {
    let stable = channel == "stable"@ || channel == scheme_spec(b);
    match (os, b) {
        (Os::MacOs, Browser::Chrome) => if stable {
            Some("Library/Application Support/Google/Chrome"@)
        } else if channel == "beta"@ {
            Some("Library/Application Support/Google/Chrome Beta"@)
        } else if channel == "canary"@ {
            Some("Library/Application Support/Google/Chrome Canary"@)
        } else if channel == "dev"@ {
            Some("Library/Application Support/Google/Chrome Dev"@)
        } else {
            None
        },
        (Os::MacOs, Browser::Edge) => if stable {
            Some("Library/Application Support/Microsoft Edge"@)
        } else if channel == "beta"@ {
            Some("Library/Application Support/Microsoft Edge Beta"@)
        } else if channel == "canary"@ {
            Some("Library/Application Support/Microsoft Edge Canary"@)
        } else if channel == "dev"@ {
            Some("Library/Application Support/Microsoft Edge Dev"@)
        } else {
            None
        },
        (Os::Linux, Browser::Chrome) => if stable {
            Some(".config/google-chrome"@)
        } else if channel == "beta"@ {
            Some(".config/google-chrome-beta"@)
        } else if channel == "canary"@ || channel == "dev"@ {
            Some(".config/google-chrome-unstable"@)
        } else {
            None
        },
        (Os::Linux, Browser::Edge) => if stable {
            Some(".config/microsoft-edge"@)
        } else if channel == "beta"@ {
            Some(".config/microsoft-edge-beta"@)
        } else if channel == "dev"@ {
            Some(".config/microsoft-edge-dev"@)
        } else {
            None
        },
        (Os::Windows, Browser::Chrome) => if stable {
            Some("Google/Chrome/User Data"@)
        } else if channel == "beta"@ {
            Some("Google/Chrome Beta/User Data"@)
        } else if channel == "canary"@ {
            Some("Google/Chrome SxS/User Data"@)
        } else if channel == "dev"@ {
            Some("Google/Chrome Dev/User Data"@)
        } else {
            None
        },
        (Os::Windows, Browser::Edge) => if stable {
            Some("Microsoft/Edge/User Data"@)
        } else if channel == "beta"@ {
            Some("Microsoft/Edge Beta/User Data"@)
        } else if channel == "canary"@ {
            Some("Microsoft/Edge SxS/User Data"@)
        } else if channel == "dev"@ {
            Some("Microsoft/Edge Dev/User Data"@)
        } else {
            None
        },
    }
}

/// The channels of a browser's profile layout: every channel is known
/// exactly when it is `stable`, `beta`, `canary`, `dev` or the browser's own
/// name (Edge Canary on Linux excepted); the browser's own name is the same
/// profile as `stable`; and Chrome and Edge never share a stable profile.
pub proof fn lemma_profile_channels(b: Browser, os: Os, channel: Seq<char>)
    ensures
        profile_dir_spec(b, os, channel) is Some <==> ((channel == "stable"@ || channel == "beta"@
            || channel == "canary"@ || channel == "dev"@ || channel == scheme_spec(b))
            && !is_linux_edge_canary(b, os, channel)),
        profile_dir_spec(b, os, "stable"@) == profile_dir_spec(b, os, scheme_spec(b)),
        profile_dir_spec(b, os, "stable"@) is Some,
        profile_dir_spec(Browser::Chrome, os, "stable"@) != profile_dir_spec(Browser::Edge, os, "stable"@),
{
    reveal_strlit("canary");
    reveal_strlit("stable");
    reveal_strlit("edge");
    reveal_strlit("Library/Application Support/Google/Chrome");
    reveal_strlit("Library/Application Support/Microsoft Edge");
    reveal_strlit(".config/google-chrome");
    reveal_strlit(".config/microsoft-edge");
    reveal_strlit("Google/Chrome/User Data");
    reveal_strlit("Microsoft/Edge/User Data");
    assert("Library/Application Support/Google/Chrome"@[28] != "Library/Application Support/Microsoft Edge"@[28]);
    assert(".config/google-chrome"@[8] != ".config/microsoft-edge"@[8]);
    assert("Google/Chrome/User Data"@[0] != "Microsoft/Edge/User Data"@[0]);
    assert("canary"@[0] != "stable"@[0]);
    assert("canary"@[0] != "edge"@[0]);
    reveal_strlit("beta");
    reveal_strlit("dev");
    assert("canary"@[0] != "beta"@[0]);
    assert("canary"@[0] != "dev"@[0]);
}

/// The pre-release channels have profiles of their own: on every system and
/// for both browsers, `beta`, `dev` and `canary` (wherever they exist) never
/// resolve to the stable profile, and `beta` never shares one with `dev` or
/// `canary`.
pub proof fn lemma_prerelease_profiles_distinct(b: Browser, os: Os)
    ensures
        profile_dir_spec(b, os, "beta"@) is Some,
        profile_dir_spec(b, os, "dev"@) is Some,
        profile_dir_spec(b, os, "beta"@) != profile_dir_spec(b, os, "stable"@),
        profile_dir_spec(b, os, "dev"@) != profile_dir_spec(b, os, "stable"@),
        profile_dir_spec(b, os, "canary"@) is Some ==> profile_dir_spec(b, os, "canary"@) != profile_dir_spec(
            b,
            os,
            "stable"@,
        ),
        profile_dir_spec(b, os, "beta"@) != profile_dir_spec(b, os, "dev"@),
        profile_dir_spec(b, os, "beta"@) != profile_dir_spec(b, os, "canary"@),
{
    reveal_strlit(".config/google-chrome");
    reveal_strlit(".config/google-chrome-beta");
    reveal_strlit(".config/google-chrome-unstable");
    reveal_strlit(".config/microsoft-edge");
    reveal_strlit(".config/microsoft-edge-beta");
    reveal_strlit(".config/microsoft-edge-dev");
    reveal_strlit("Google/Chrome Beta/User Data");
    reveal_strlit("Google/Chrome Dev/User Data");
    reveal_strlit("Google/Chrome SxS/User Data");
    reveal_strlit("Google/Chrome/User Data");
    reveal_strlit("Library/Application Support/Google/Chrome Beta");
    reveal_strlit("Library/Application Support/Google/Chrome Canary");
    reveal_strlit("Library/Application Support/Google/Chrome Dev");
    reveal_strlit("Library/Application Support/Google/Chrome");
    reveal_strlit("Library/Application Support/Microsoft Edge Beta");
    reveal_strlit("Library/Application Support/Microsoft Edge Canary");
    reveal_strlit("Library/Application Support/Microsoft Edge Dev");
    reveal_strlit("Library/Application Support/Microsoft Edge");
    reveal_strlit("Microsoft/Edge Beta/User Data");
    reveal_strlit("Microsoft/Edge Dev/User Data");
    reveal_strlit("Microsoft/Edge SxS/User Data");
    reveal_strlit("Microsoft/Edge/User Data");
    reveal_strlit("beta");
    reveal_strlit("canary");
    reveal_strlit("chrome");
    reveal_strlit("dev");
    reveal_strlit("edge");
    reveal_strlit("stable");
    assert("beta"@.len() != "stable"@.len() && "beta"@.len() != "chrome"@.len() && "beta"@[0] != "edge"@[0]);
    assert("dev"@.len() != "stable"@.len() && "dev"@.len() != "chrome"@.len() && "dev"@.len() != "edge"@.len());
    assert("canary"@[0] != "stable"@[0] && "canary"@.len() != "edge"@.len());
    assert("canary"@ != "chrome"@) by {
        assert("canary"@[1] != "chrome"@[1]);
    }
    assert("dev"@ != "beta"@) by {
        assert("dev"@.len() != "beta"@.len());
    }
    assert("canary"@ != "beta"@ && "canary"@ != "dev"@);
    let st = profile_dir_spec(b, os, "stable"@);
    let be = profile_dir_spec(b, os, "beta"@);
    let de = profile_dir_spec(b, os, "dev"@);
    assert(st is Some && be is Some && de is Some);
    assert(st->0.len() < be->0.len() && st->0.len() < de->0.len());
}

/// Edge has no Canary build for Linux.
pub open spec fn is_linux_edge_canary(b: Browser, os: Os, channel: Seq<char>) -> bool {
    os == Os::Linux && b == Browser::Edge && channel == "canary"@
}

impl Browser {
    /// The browser a `--browser` value names: `chrome`, or `edge`/`msedge`.
    pub fn parse(name: &str) -> (r: Result<Browser, BrowserError>)
        ensures
            match r {
                Ok(b) => browser_named(name@) == Some(b),
                Err(BrowserError::UnknownBrowser(n)) => browser_named(name@) is None && n@ == name@,
                Err(_) => false,
            },
    {
        if str_eq(name, "chrome") {
            Ok(Browser::Chrome)
        } else if str_eq(name, "edge") || str_eq(name, "msedge") {
            Ok(Browser::Edge)
        } else {
            Err(BrowserError::UnknownBrowser(owned(name)))
        }
    }

    /// The name shown in messages.
    pub fn label(self) -> (r: &'static str)
        ensures
            r@ == label_spec(self),
    {
        match self {
            Browser::Chrome => "Chrome",
            Browser::Edge => "Microsoft Edge",
        }
    }

    /// The URL scheme of the browser's own pages (`<scheme>://inspect`).
    pub fn scheme(self) -> (r: &'static str)
        ensures
            r@ == scheme_spec(self),
    {
        match self {
            Browser::Chrome => "chrome",
            Browser::Edge => "edge",
        }
    }

    /// The profile directory of release `channel` on `os`, relative to the
    /// home directory (on Windows, to `%LOCALAPPDATA%`).
    pub fn default_user_data_dir(self, os: Os, channel: &str) -> (r: Result<String, BrowserError>)
        ensures
            match r {
                Ok(d) => !is_linux_edge_canary(self, os, channel@) && profile_dir_spec(self, os, channel@)
                    == Some(d@),
                Err(BrowserError::EdgeCanaryOnLinux) => is_linux_edge_canary(self, os, channel@),
                Err(BrowserError::UnknownChannel(b, c)) => !is_linux_edge_canary(self, os, channel@)
                    && profile_dir_spec(self, os, channel@) is None && b == self && c@ == channel@,
                Err(_) => false,
            },
    {
        let stable = str_eq(channel, "stable") || str_eq(channel, self.scheme());
        let beta = str_eq(channel, "beta");
        let canary = str_eq(channel, "canary");
        let dev = str_eq(channel, "dev");
        let dir: Option<&str> = match (os, self) {
            (Os::MacOs, Browser::Chrome) => if stable {
                Some("Library/Application Support/Google/Chrome")
            } else if beta {
                Some("Library/Application Support/Google/Chrome Beta")
            } else if canary {
                Some("Library/Application Support/Google/Chrome Canary")
            } else if dev {
                Some("Library/Application Support/Google/Chrome Dev")
            } else {
                None
            },
            (Os::MacOs, Browser::Edge) => if stable {
                Some("Library/Application Support/Microsoft Edge")
            } else if beta {
                Some("Library/Application Support/Microsoft Edge Beta")
            } else if canary {
                Some("Library/Application Support/Microsoft Edge Canary")
            } else if dev {
                Some("Library/Application Support/Microsoft Edge Dev")
            } else {
                None
            },
            (Os::Linux, Browser::Chrome) => if stable {
                Some(".config/google-chrome")
            } else if beta {
                Some(".config/google-chrome-beta")
            } else if canary || dev {
                Some(".config/google-chrome-unstable")
            } else {
                None
            },
            (Os::Linux, Browser::Edge) => if stable {
                Some(".config/microsoft-edge")
            } else if beta {
                Some(".config/microsoft-edge-beta")
            } else if dev {
                Some(".config/microsoft-edge-dev")
            } else if canary {
                return Err(BrowserError::EdgeCanaryOnLinux);
            } else {
                None
            },
            (Os::Windows, Browser::Chrome) => if stable {
                Some("Google/Chrome/User Data")
            } else if beta {
                Some("Google/Chrome Beta/User Data")
            } else if canary {
                Some("Google/Chrome SxS/User Data")
            } else if dev {
                Some("Google/Chrome Dev/User Data")
            } else {
                None
            },
            (Os::Windows, Browser::Edge) => if stable {
                Some("Microsoft/Edge/User Data")
            } else if beta {
                Some("Microsoft/Edge Beta/User Data")
            } else if canary {
                Some("Microsoft/Edge SxS/User Data")
            } else if dev {
                Some("Microsoft/Edge Dev/User Data")
            } else {
                None
            },
        };
        proof {
            reveal_strlit("canary");
            reveal_strlit("stable");
            reveal_strlit("edge");
            reveal_strlit("beta");
            reveal_strlit("dev");
            assert("canary"@[0] != "stable"@[0]);
            assert("canary"@ != "stable"@);
            assert("canary"@ != "edge"@);
            assert("canary"@ != "beta"@);
            assert("canary"@ != "dev"@);
        }
        match dir {
            Some(d) => Ok(owned(d)),
            None => Err(BrowserError::UnknownChannel(self, owned(channel))),
        }
    }
}

/// Where the endpoint comes from.
#[derive(Debug)]
pub enum WsUrlSource {
    /// An explicit endpoint, used as given.
    Endpoint(String),
    /// The `DevToolsActivePort` file of this browser's profile: in the given
    /// directory, or in the default profile directory (relative to the home
    /// directory, or on Windows to `%LOCALAPPDATA%`).
    ActivePort { user_data_dir: Option<String>, default_dir: Option<String>, browser: Browser },
}

/// Resolves where the WebSocket endpoint comes from: an explicit endpoint
/// wins (and the browser name is then not even checked); otherwise the
/// browser's profile, the given one or the channel's default.
pub fn resolve_ws_url(
    ws_endpoint: Option<&str>,
    user_data_dir: Option<&str>,
    browser: &str,
    channel: &str,
    os: Os,
) -> (r: Result<WsUrlSource, BrowserError>)
    ensures
        ws_endpoint matches Some(ws) ==> (r matches Ok(WsUrlSource::Endpoint(s)) && s@ == ws@),
        ws_endpoint is None ==> match r {
            Ok(WsUrlSource::ActivePort { user_data_dir: u, default_dir: d, browser: b }) => {
                &&& browser_named(browser@) == Some(b)
                &&& match user_data_dir {
                    Some(given) => u matches Some(x) && x@ == given@ && d is None,
                    None => u is None && (d matches Some(x) && !is_linux_edge_canary(b, os, channel@)
                        && profile_dir_spec(b, os, channel@) == Some(x@)),
                }
            },
            Ok(WsUrlSource::Endpoint(_)) => false,
            Err(BrowserError::UnknownBrowser(n)) => browser_named(browser@) is None && n@ == browser@,
            Err(BrowserError::EdgeCanaryOnLinux) => user_data_dir is None && (browser_named(browser@)
                matches Some(b) && is_linux_edge_canary(b, os, channel@)),
            Err(BrowserError::UnknownChannel(b, c)) => user_data_dir is None && browser_named(browser@)
                == Some(b) && !is_linux_edge_canary(b, os, channel@) && profile_dir_spec(b, os, channel@)
                is None && c@ == channel@,
            Err(_) => false,
        },
{
    if let Some(ws) = ws_endpoint {
        return Ok(WsUrlSource::Endpoint(owned(ws)));
    }
    let b = match Browser::parse(browser) {
        Ok(b) => b,
        Err(e) => {
            return Err(e);
        },
    };
    match user_data_dir {
        Some(dir) => Ok(WsUrlSource::ActivePort { user_data_dir: Some(owned(dir)), default_dir: None, browser: b }),
        None => match b.default_user_data_dir(os, channel) {
            Ok(d) => Ok(WsUrlSource::ActivePort { user_data_dir: None, default_dir: Some(d), browser: b }),
            Err(e) => Err(e),
        },
    }
}

// ---------------------------------------------------------------------
// DevToolsActivePort
// ---------------------------------------------------------------------

/// The non-blank lines of the file, trimmed.
pub open spec fn active_port_lines(content: Seq<char>) -> Seq<Seq<char>>
    decreases line_pieces(content).len(),
{
    kept_trimmed(line_pieces(content), line_pieces(content).len() as nat)
}

/// The non-blank trimmed lines among the first `k` pieces.
pub open spec fn kept_trimmed(pieces: Seq<Seq<char>>, k: nat) -> Seq<Seq<char>>
    decreases k,
{
    if k == 0 {
        Seq::empty()
    } else {
        let rest = kept_trimmed(pieces, (k - 1) as nat);
        let t = trim(pieces[k - 1]);
        if t.len() > 0 {
            rest.push(t)
        } else {
            rest
        }
    }
}

/// What a well-formed file yields: `ws://127.0.0.1:<port><path>`, from the
/// port on its first non-blank line and the path on its second.
pub open spec fn active_port_url(content: Seq<char>) -> Option<Seq<char>> {
    let lines = active_port_lines(content);
    if lines.len() < 2 {
        None
    } else {
        match parse_bounded(lines[0], 65535) {
            Some(p) => if p == 0 {
                None
            } else {
                Some("ws://127.0.0.1:"@ + dec(p) + lines[1])
            },
            None => None,
        }
    }
}

/// The WebSocket URL a `DevToolsActivePort` file names: its first non-blank
/// line is the port (1 to 65535), its second the browser's path.
pub fn ws_url_from_active_port(content: &str, browser: Browser) -> (r: Result<String, BrowserError>)
    ensures
        match r {
            Ok(u) => active_port_url(content@) == Some(u@),
            Err(BrowserError::InvalidActivePortContent(t)) => active_port_lines(content@).len() < 2
                && t@ == trim(content@),
            Err(BrowserError::InvalidPort(l)) => active_port_lines(content@).len() >= 2 && parse_bounded(
                active_port_lines(content@)[0],
                65535,
            ) is None && l@ == active_port_lines(content@)[0],
            Err(BrowserError::PortZero(b)) => active_port_lines(content@).len() >= 2 && parse_bounded(
                active_port_lines(content@)[0],
                65535,
            ) == Some(0nat) && b == browser,
            Err(_) => false,
        },
{
    let chars = crate::text::chars_of(content);
    let pieces = split_lines(chars.as_slice());
    let ghost ps = line_pieces(content@);
    let mut lines: Vec<Vec<char>> = Vec::new();
    let mut i: usize = 0;
    while i < pieces.len()
        invariant
            chars@ == content@,
            ps == line_pieces(content@),
            pieces@.len() == ps.len(),
            forall|k: int| 0 <= k < pieces@.len() ==> #[trigger] pieces@[k]@ == ps[k],
            0 <= i <= pieces@.len(),
            lines@.len() == kept_trimmed(ps, i as nat).len(),
            forall|k: int| 0 <= k < lines@.len() ==> #[trigger] lines@[k]@ == kept_trimmed(ps, i as nat)[k],
        decreases pieces@.len() - i,
    {
        let t = trim_chars(pieces[i].as_slice());
        if t.len() > 0 {
            lines.push(t);
        }
        i = i + 1;
    }
    if lines.len() < 2 {
        let t = trim_chars(chars.as_slice());
        return Err(BrowserError::InvalidActivePortContent(string_from_chars(t.as_slice())));
    }
    let port = match parse_u64_max(lines[0].as_slice(), 65535) {
        Some(p) => p,
        None => {
            return Err(BrowserError::InvalidPort(string_from_chars(lines[0].as_slice())));
        },
    };
    if port == 0 {
        return Err(BrowserError::PortZero(browser));
    }
    let mut v: Vec<char> = Vec::new();
    push_str(&mut v, "ws://127.0.0.1:");
    let d = u64_dec(port);
    push_all(&mut v, d.as_slice());
    push_all(&mut v, lines[1].as_slice());
    proof {
        assert(v@ =~= "ws://127.0.0.1:"@ + dec(port as nat) + lines@[1]@);
    }
    Ok(string_from_chars(v.as_slice()))
}

// ---------------------------------------------------------------------
// Messages
// ---------------------------------------------------------------------

/// `s` as Rust's `{:?}` shows a string: quoted, with escapes.
pub uninterp spec fn str_debug_spec(s: Seq<char>) -> Seq<char>;

/// `format!("{:?}", s)`: the string quoted and escaped as Rust source would
/// write it. The contract only names the result.
#[verifier::external_body]
fn str_debug(s: &str) -> (r: String)
    ensures
        r@ == str_debug_spec(s@),
{
    format!("{:?}", s)
}

impl BrowserError {
    /// The message shown to the user.
    pub fn message(&self) -> (r: String)
        ensures
            r@ == (match self {
                BrowserError::UnknownBrowser(n) => "Unknown browser: "@ + n@
                    + " (expected 'chrome' or 'edge')"@,
                BrowserError::UnknownChannel(b, c) => "Unknown "@ + label_spec(*b) + " channel: "@ + c@,
                BrowserError::EdgeCanaryOnLinux => "Microsoft Edge Canary is not distributed for Linux"@,
                BrowserError::ActivePortUnreadable(path, b) => "Could not read DevToolsActivePort at "@
                    + path@ + "\n\nMake sure "@ + label_spec(*b)
                    + " is running with remote debugging enabled:\n1. Open "@ + label_spec(*b)
                    + "\n2. Go to "@ + scheme_spec(*b)
                    + "://inspect/#remote-debugging\n3. Enable the remote debugging server"@,
                BrowserError::InvalidActivePortContent(t) =>
                    "Invalid DevToolsActivePort content: expected port and path, got: "@
                    + str_debug_spec(t@),
                BrowserError::InvalidPort(l) => "Invalid port '"@ + l@ + "' in DevToolsActivePort"@,
                BrowserError::PortZero(b) => "Port 0 in DevToolsActivePort \u{2014} "@ + label_spec(*b)
                    + " may not be running"@,
            }),
    {
        let mut v: Vec<char> = Vec::new();
        match self {
            BrowserError::UnknownBrowser(n) => {
                push_str(&mut v, "Unknown browser: ");
                push_str(&mut v, n.as_str());
                push_str(&mut v, " (expected 'chrome' or 'edge')");
            },
            BrowserError::UnknownChannel(b, c) => {
                push_str(&mut v, "Unknown ");
                push_str(&mut v, b.label());
                push_str(&mut v, " channel: ");
                push_str(&mut v, c.as_str());
            },
            BrowserError::EdgeCanaryOnLinux => {
                push_str(&mut v, "Microsoft Edge Canary is not distributed for Linux");
            },
            BrowserError::ActivePortUnreadable(path, b) => {
                push_str(&mut v, "Could not read DevToolsActivePort at ");
                push_str(&mut v, path.as_str());
                push_str(&mut v, "\n\nMake sure ");
                push_str(&mut v, b.label());
                push_str(&mut v, " is running with remote debugging enabled:\n1. Open ");
                push_str(&mut v, b.label());
                push_str(&mut v, "\n2. Go to ");
                push_str(&mut v, b.scheme());
                push_str(&mut v, "://inspect/#remote-debugging\n3. Enable the remote debugging server");
            },
            BrowserError::InvalidActivePortContent(t) => {
                push_str(&mut v, "Invalid DevToolsActivePort content: expected port and path, got: ");
                let q = str_debug(t.as_str());
                push_str(&mut v, q.as_str());
            },
            BrowserError::InvalidPort(l) => {
                push_str(&mut v, "Invalid port '");
                push_str(&mut v, l.as_str());
                push_str(&mut v, "' in DevToolsActivePort");
            },
            BrowserError::PortZero(b) => {
                push_str(&mut v, "Port 0 in DevToolsActivePort \u{2014} ");
                push_str(&mut v, b.label());
                push_str(&mut v, " may not be running");
            },
        }
        proof {
            assert(v@ =~= (match self {
                BrowserError::UnknownBrowser(n) => "Unknown browser: "@ + n@
                    + " (expected 'chrome' or 'edge')"@,
                BrowserError::UnknownChannel(b, c) => "Unknown "@ + label_spec(*b) + " channel: "@ + c@,
                BrowserError::EdgeCanaryOnLinux => "Microsoft Edge Canary is not distributed for Linux"@,
                BrowserError::ActivePortUnreadable(path, b) => "Could not read DevToolsActivePort at "@
                    + path@ + "\n\nMake sure "@ + label_spec(*b)
                    + " is running with remote debugging enabled:\n1. Open "@ + label_spec(*b)
                    + "\n2. Go to "@ + scheme_spec(*b)
                    + "://inspect/#remote-debugging\n3. Enable the remote debugging server"@,
                BrowserError::InvalidActivePortContent(t) =>
                    "Invalid DevToolsActivePort content: expected port and path, got: "@
                    + str_debug_spec(t@),
                BrowserError::InvalidPort(l) => "Invalid port '"@ + l@ + "' in DevToolsActivePort"@,
                BrowserError::PortZero(b) => "Port 0 in DevToolsActivePort \u{2014} "@ + label_spec(*b)
                    + " may not be running"@,
            }));
        }
        string_from_chars(v.as_slice())
    }
}

} // verus!
