use obscura::net::csp::ContentSecurityPolicy;
use obscura::net::sri::{integrity_names, verify_integrity};

#[test]
fn policies_allow_listed_sources() {
    let csp = ContentSecurityPolicy::parse(
        "script-src https://a.com/ blob: ; style-src 'self';connect-src  data:  wss://x",
    );
    assert!(csp.allows_script_src("https://a.com/app.js"));
    assert!(csp.allows_script_src("blob:1234"));
    assert!(!csp.allows_script_src("https://b.com/app.js"));
    assert!(csp.allows_style_src("https://anything"));
    assert!(csp.allows_connect_src("data:text/plain,x"));
    assert!(csp.allows_connect_src("wss://x/y"));
    assert!(!csp.allows_connect_src("https://x"));
    assert!(!csp.report_only());
}

#[test]
fn a_policy_without_a_rule_allows_everything() {
    let csp = ContentSecurityPolicy::default();
    assert!(csp.allows_script_src("x"));
    assert!(csp.allows_style_src(""));
    let csp = ContentSecurityPolicy::parse("script-src");
    assert_eq!(csp.directives.len(), 0);
    assert!(csp.allows_script_src("https://a.com"));
}

#[test]
fn later_rules_replace_earlier_ones() {
    let csp = ContentSecurityPolicy::parse("SCRIPT-SRC a:; Script-Src b:; report-only x");
    assert_eq!(csp.directives.len(), 2);
    assert_eq!(csp.directives[0].name, "script-src");
    assert_eq!(csp.directives[0].values, vec!["b:".to_string()]);
    assert!(!csp.allows_script_src("a:1"));
    assert!(csp.allows_script_src("b:1"));
    assert!(csp.report_only());
}

#[test]
fn more_sources_allow_more() {
    let few = ContentSecurityPolicy::parse("script-src a: b:");
    let more = ContentSecurityPolicy::parse("script-src c: b: a:");
    for url in ["a:1", "b:1", "c:1", "d:1"] {
        assert!(!few.allows_script_src(url) || more.allows_script_src(url));
    }
    assert!(more.allows_script_src("c:1") && !few.allows_script_src("c:1"));
    let csp = ContentSecurityPolicy::parse("img-src a:");
    assert!(csp.allows_source("img-src", "a:1"));
    assert!(!csp.allows_source("img-src", "b:1"));
    assert!(csp.allows_source("font-src", "b:1"));
}

#[test]
fn names_are_put_in_lower_case() {
    let csp = ContentSecurityPolicy::parse("ÄB-src *");
    assert_eq!(csp.directives[0].name, "äb-src");
}

#[test]
fn a_star_allows_everything() {
    let csp = ContentSecurityPolicy::parse("script-src none *");
    assert!(csp.allows_script_src("anything"));
    let csp = ContentSecurityPolicy::parse("script-src\u{a0}x *");
    assert!(csp.allows_script_src("anything"));
}

#[test]
fn integrity_of_a_known_text() {
    // SHA-256 of "hello world".
    let integrity = "sha256-uU0nuZNNPgilLlLX2n2r+sSE7+N6U4DukIj3rOLvzek=";
    assert!(verify_integrity(b"hello world", integrity));
    assert!(!verify_integrity(b"hello worlds", integrity));
    assert!(verify_integrity(b"", "sha256-47DEQpj8HBSa+/TImW+5JCeuQeRkm5NMpJWZG3hSuFU="));
}

#[test]
fn integrity_of_other_algorithms() {
    assert!(!verify_integrity(b"", "sha384-x"));
    assert!(!verify_integrity(b"", "sha256"));
    assert!(!verify_integrity(b"", ""));
    assert!(!verify_integrity(b"", "SHA256-47DEQpj8HBSa+/TImW+5JCeuQeRkm5NMpJWZG3hSuFU="));
}

#[test]
fn integrity_splits_at_the_first_dash() {
    assert!(integrity_names("sha256-a-b", "a-b"));
    assert!(!integrity_names("sha256-a-b", "b"));
    assert!(!integrity_names("sha256--a", "a"));
}
