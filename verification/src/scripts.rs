//! Texts handed to other programs: the environment of `docker compose` and
//! the script that opens a browser.

use vstd::prelude::*;
use vstd::string::*;
use crate::text::same_text;
use crate::text::{decimal_chars, decimal_text, string_of};

verus! {

/// What stands before `docker compose` on its command line: the project
/// name, and `COMPOSE_PARALLEL_BUILD=0` where builds are not to run in
/// parallel; each followed by a space.
pub open spec fn env_prefix(project: Seq<char>, parallel_build: bool) -> Seq<char> {
    if parallel_build {
        "COMPOSE_PROJECT_NAME="@ + project + " "@
    } else {
        "COMPOSE_PROJECT_NAME="@ + project + " COMPOSE_PARALLEL_BUILD=0 "@
    }
}

/// The variables to set before `docker compose` on its command line.
pub fn compose_env_prefix(project_name: &str, parallel_build: bool) -> (r: String)
    ensures
        r@ == env_prefix(project_name@, parallel_build),
{
    let mut out = String::from_str("COMPOSE_PROJECT_NAME=");
    out.append(project_name);
    if parallel_build {
        out.append(" ");
    } else {
        out.append(" COMPOSE_PARALLEL_BUILD=0 ");
    }
    out
}

/// The browser engine that a browser name asks for: `chromium` for `chrome`
/// and `chromium`, every other name as it is.
pub open spec fn engine(browser: Seq<char>) -> Seq<char> {
    if browser == "chrome"@ || browser == "chromium"@ {
        "chromium"@
    } else {
        browser
    }
}

/// `browser` is a browser that can be launched: `chrome`, `chromium` or
/// `firefox`.
pub open spec fn supported_browser(browser: Seq<char>) -> bool {
    browser == "chrome"@ || browser == "chromium"@ || browser == "firefox"@
}

/// Whether `browser` is a browser that can be launched.
pub fn is_supported_browser(browser: &str) -> (r: bool)
    ensures
        r == supported_browser(browser@),
{
    same_text(browser, "chrome") || same_text(browser, "chromium") || same_text(
        browser,
        "firefox",
    )
}

/// The script up to the name of the engine that it imports.
pub const SCRIPT_HEAD: &'static str = "\nconst { ";

/// The script between the import and the launch.
pub const SCRIPT_IMPORT: &'static str =
    " } = require('playwright');\n\n(async () => {\n  const browser = await ";

/// The script between the launch and the port of the proxy.
pub const SCRIPT_LAUNCH: &'static str =
    ".launch({\n    headless: false,\n    proxy: { server: 'socks5://127.0.0.1:";

/// The script between the port of the proxy and the address to open.
pub const SCRIPT_PAGE: &'static str =
    "' }\n  });\n  const context = await browser.newContext();\n  const page = await context.newPage();\n  await page.goto('";

/// The end of the script.
pub const SCRIPT_END: &'static str =
    "');\n  console.log('Playwright launched with SOCKS5 proxy. Press Ctrl+C to exit.');\n  await new Promise(() => {});\n})().catch((err) => {\n  console.error(err);\n  process.exit(1);\n});\n";

/// The script that launches `browser` through the proxy on `proxy_port` and
/// opens `url`.
pub open spec fn launch_script(browser: Seq<char>, proxy_port: u16, url: Seq<char>) -> Seq<char> {
    SCRIPT_HEAD@ + engine(browser) + SCRIPT_IMPORT@ + engine(browser) + SCRIPT_LAUNCH@
        + decimal_text(proxy_port as nat) + SCRIPT_PAGE@ + url + SCRIPT_END@
}

/// Writes the script that launches a browser through the proxy of an
/// instance.
pub fn build_script(browser: &str, proxy_port: u16, url: &str) -> (r: String)
    ensures
        r@ == launch_script(browser@, proxy_port, url@),
{
    let name = if same_text(browser, "chrome") || same_text(browser, "chromium") {
        "chromium"
    } else {
        browser
    };
    let port = decimal_chars(proxy_port as u64);
    let mut out = String::from_str(SCRIPT_HEAD);
    out.append(name);
    out.append(SCRIPT_IMPORT);
    out.append(name);
    out.append(SCRIPT_LAUNCH);
    out.append(string_of(port.as_slice()).as_str());
    out.append(SCRIPT_PAGE);
    out.append(url);
    out.append(SCRIPT_END);
    out
}

} // verus!
