use yen::catalog::{catalog_from_urls, release_version, resolve, version_in_url, Catalog, Request};
use yen::error::YenError;
use yen::fetch::{advance, file_name, required_length};
use yen::github::{Asset, GithubResp};
use yen::install::{install_dir, python_bin_path, Installer, Step};
use yen::platform::MachineSuffix;
use yen::venv::{venv_command, venv_outcome};
use yen::version::Version;

const MUSL: &str = "x86_64_v3-unknown-linux-musl-install_only.tar.gz";
const GNU: &str = "x86_64_v3-unknown-linux-gnu-install_only.tar.gz";

fn v(major: u32, minor: u32, patch: u32) -> Version {
    Version { major, minor, patch }
}

fn url(version: &str, suffix: &str) -> String {
    format!(
        "https://github.com/indygreg/python-build-standalone/releases/download/20240107/cpython-{version}+20240107-{suffix}"
    )
}

fn catalog_of(entries: &[(&str, &str)]) -> Catalog {
    let mut c = Catalog::new();
    for (ver, u) in entries {
        c.insert(Version::from_str(ver).unwrap(), u.to_string());
    }
    c
}

#[test]
fn version_round_trip() {
    for s in ["3.11.0", "0.0.0", "3.10.2", "4294967295.1.22"] {
        let parsed = Version::from_str(s).unwrap();
        assert_eq!(parsed.to_string(), s);
    }
    assert_eq!(Version::from_str("3.9.10").unwrap(), v(3, 9, 10));
}

#[test]
fn version_leading_zeros_read_as_numbers() {
    assert_eq!(Version::from_str("03.010.2").unwrap(), v(3, 10, 2));
    assert_eq!(v(3, 10, 2).to_string(), "3.10.2");
}

#[test]
fn version_rejects_malformed_text() {
    for s in ["", "3", "3.11", "3.11.0.1", "a.b.c", "3.11.x", "3..0", ".1.2", "1.2.", "4294967296.0.0", "+3.1.2", " 3.1.2"] {
        assert!(Version::from_str(s).is_err(), "{s}");
    }
}

#[test]
fn version_order_is_numeric() {
    assert!(v(3, 9, 10) < v(3, 10, 0));
    assert!(v(2, 99, 99) < v(3, 0, 0));
    assert!(v(3, 10, 1) < v(3, 10, 2));
    assert!(!(v(3, 10, 2) < v(3, 10, 2)));
    assert!(v(3, 11, 0) > v(3, 10, 9));
    let mut all = vec![v(3, 10, 0), v(3, 9, 10), v(3, 11, 0), v(3, 9, 2)];
    all.sort();
    assert_eq!(all, vec![v(3, 9, 2), v(3, 9, 10), v(3, 10, 0), v(3, 11, 0)]);
}

#[test]
fn suffixes_of_platforms() {
    assert_eq!(MachineSuffix::DarwinArm64.get_suffix(), "aarch64-apple-darwin-install_only.tar.gz");
    assert_eq!(MachineSuffix::DarwinX64.get_suffix(), "x86_64-apple-darwin-install_only.tar.gz");
    assert_eq!(MachineSuffix::LinuxAarch64.get_suffix(), "aarch64-unknown-linux-gnu-install_only.tar.gz");
    assert_eq!(MachineSuffix::LinuxX64GlibC.get_suffix(), GNU);
    assert_eq!(MachineSuffix::LinuxX64Musl.get_suffix(), MUSL);
}

#[test]
fn platforms_of_targets() {
    assert_eq!(MachineSuffix::from_target("x86_64-unknown-linux-musl"), Ok(MachineSuffix::LinuxX64Musl));
    assert_eq!(MachineSuffix::from_target("x86_64-unknown-linux-gnu"), Ok(MachineSuffix::LinuxX64GlibC));
    assert_eq!(MachineSuffix::from_target("aarch64-unknown-linux-gnu"), Ok(MachineSuffix::LinuxAarch64));
    assert_eq!(MachineSuffix::from_target("aarch64-apple-darwin"), Ok(MachineSuffix::DarwinArm64));
    assert_eq!(MachineSuffix::from_target("x86_64-apple-darwin"), Ok(MachineSuffix::DarwinX64));
    assert_eq!(MachineSuffix::from_target("x86_64-pc-windows-msvc"), Err(YenError::UnsupportedPlatform));
    assert_eq!(MachineSuffix::from_target("x86_64-unknown-linux-gnux"), Err(YenError::UnsupportedPlatform));
}

#[test]
fn version_found_in_archive_name() {
    assert_eq!(version_in_url(&url("3.11.0", GNU)), Some(v(3, 11, 0)));
    assert_eq!(version_in_url("cpython-3.12.1"), Some(v(3, 12, 1)));
    assert_eq!(version_in_url("pypy-3.12.1.tar.gz"), None);
    assert_eq!(version_in_url("cpython-3.12.tar.gz"), None);
    assert_eq!(version_in_url("cpython-x cpython-3.8.18-a"), Some(v(3, 8, 18)));
}

#[test]
fn foreign_suffix_is_excluded() {
    let gnu = url("3.11.0", "x86_64-unknown-linux-gnu-install_only.tar.gz");
    assert_eq!(release_version(&gnu, MUSL), None);
    let c = catalog_from_urls(&vec![gnu], MUSL);
    assert_eq!(c.len(), 0);
    assert_eq!(release_version(&url("3.11.0", MUSL), MUSL), Some(v(3, 11, 0)));
}

#[test]
fn later_url_wins_for_one_version() {
    let a = url("3.11.0", GNU);
    let b = format!("https://mirror.example/cpython-3.11.0-{GNU}");
    let c = catalog_from_urls(&vec![a.clone(), b.clone()], GNU);
    assert_eq!(c.len(), 1);
    assert_eq!(c.get(&v(3, 11, 0)), Some(b.clone()));
    let d = catalog_from_urls(&vec![b, a.clone()], GNU);
    assert_eq!(d.get(&v(3, 11, 0)), Some(a));
}

#[test]
fn catalog_keeps_versions_ascending() {
    let urls = vec![
        url("3.11.0", GNU),
        url("3.9.0", GNU),
        "https://example.com/SHA256SUMS".to_string(),
        url("3.10.2", GNU),
        url("3.12.0", MUSL),
    ];
    let c = catalog_from_urls(&urls, GNU);
    assert_eq!(c.versions(), vec![v(3, 9, 0), v(3, 10, 2), v(3, 11, 0)]);
    assert_eq!(c.get(&v(3, 12, 0)), None);
}

#[test]
fn resolve_latest_and_exact() {
    let c = catalog_of(&[("3.9.0", "urlA"), ("3.11.0", "urlC"), ("3.10.2", "urlB")]);
    assert_eq!(resolve(&Request::Latest, &c), Ok((v(3, 11, 0), "urlC".to_string())));
    assert_eq!(resolve(&Request::Exact(v(3, 10, 2)), &c), Ok((v(3, 10, 2), "urlB".to_string())));
    assert_eq!(
        resolve(&Request::Exact(v(3, 12, 0)), &c),
        Err(YenError::VersionNotAvailable(v(3, 12, 0)))
    );
}

#[test]
fn resolve_in_empty_catalog() {
    let c = Catalog::new();
    assert_eq!(resolve(&Request::Latest, &c), Err(YenError::NoRelease));
    assert_eq!(c.latest(), None);
}

#[test]
fn requests_are_read() {
    assert_eq!(Request::parse("latest"), Ok(Request::Latest));
    assert_eq!(Request::parse("3.10.2"), Ok(Request::Exact(v(3, 10, 2))));
    assert!(Request::parse("Latest").is_err());
    assert!(Request::parse("3.10").is_err());
}

#[test]
fn cached_exact_version_needs_no_catalog() {
    let mut m = Installer::new(Request::Exact(v(3, 10, 2)));
    assert_eq!(m.step, Step::CreateRoot);
    m.on_done();
    assert_eq!(m.step, Step::Probe(v(3, 10, 2)));
    m.on_probe(true);
    assert_eq!(m.step, Step::Done(v(3, 10, 2)));
    assert_eq!(
        python_bin_path("installs_root", &v(3, 10, 2)),
        "installs_root/3.10.2/python/bin/python3"
    );
}

#[test]
fn missing_exact_version_is_fetched() {
    let c = catalog_of(&[("3.10.2", "urlB")]);
    let mut m = Installer::new(Request::Exact(v(3, 10, 2)));
    m.on_done();
    m.on_probe(false);
    assert_eq!(m.step, Step::FetchCatalog);
    m.on_catalog(&c);
    assert_eq!(m.step, Step::Prepare(v(3, 10, 2)));
    assert_eq!(m.url, Some("urlB".to_string()));
    m.on_done();
    assert_eq!(m.step, Step::Download(v(3, 10, 2)));
    m.on_done();
    assert_eq!(m.step, Step::Extract(v(3, 10, 2)));
    m.on_done();
    assert_eq!(m.step, Step::Done(v(3, 10, 2)));
}

#[test]
fn latest_is_resolved_then_probed() {
    let c = catalog_of(&[("3.9.0", "urlA"), ("3.11.0", "urlC")]);
    let mut m = Installer::new(Request::Latest);
    m.on_done();
    assert_eq!(m.step, Step::FetchCatalog);
    m.on_catalog(&c);
    assert_eq!(m.step, Step::Probe(v(3, 11, 0)));
    assert_eq!(m.url, Some("urlC".to_string()));
    m.on_probe(true);
    assert_eq!(m.step, Step::Done(v(3, 11, 0)));

    let mut n = Installer::new(Request::Latest);
    n.on_done();
    n.on_catalog(&c);
    n.on_probe(false);
    assert_eq!(n.step, Step::Prepare(v(3, 11, 0)));
}

#[test]
fn installer_failures() {
    let mut m = Installer::new(Request::Exact(v(3, 12, 0)));
    m.on_done();
    m.on_probe(false);
    m.on_catalog(&catalog_of(&[("3.10.2", "urlB")]));
    assert_eq!(m.step, Step::Failed(YenError::VersionNotAvailable(v(3, 12, 0))));

    let mut n = Installer::new(Request::Latest);
    n.on_done();
    n.on_catalog(&Catalog::new());
    assert_eq!(n.step, Step::Failed(YenError::NoRelease));

    let mut k = Installer::new(Request::Latest);
    k.on_error(YenError::CreateDir);
    assert_eq!(k.step, Step::Failed(YenError::CreateDir));
    k.on_error(YenError::Download);
    assert_eq!(k.step, Step::Failed(YenError::CreateDir));
}

#[test]
fn install_paths() {
    assert_eq!(install_dir("/home/u/.yen/installs", &v(3, 11, 0)), "/home/u/.yen/installs/3.11.0");
    assert_eq!(
        python_bin_path("/r", &v(3, 9, 18)),
        "/r/3.9.18/python/bin/python3"
    );
}

#[test]
fn download_file_names() {
    assert_eq!(file_name("https://example.com/a/b/cpython-3.11.0.tar.gz"), "cpython-3.11.0.tar.gz");
    assert_eq!(file_name("plain"), "plain");
    assert_eq!(file_name("https://example.com/dir/"), "");
}

#[test]
fn download_needs_length() {
    assert_eq!(required_length(Some(42)), Ok(42));
    assert_eq!(required_length(None), Err(YenError::MissingContentLength));
}

#[test]
fn progress_is_clamped() {
    assert_eq!(advance(0, 10, 100), 10);
    assert_eq!(advance(95, 10, 100), 100);
    assert_eq!(advance(100, 0, 100), 100);
    assert_eq!(advance(u64::MAX - 1, 5, u64::MAX), u64::MAX);
}

#[test]
fn existing_venv_is_refused() {
    assert!(matches!(venv_command("/py/bin/python3", "/tmp/venv", true), Err(YenError::AlreadyExists)));
    let c = venv_command("/py/bin/python3", "/tmp/venv", false).unwrap();
    assert_eq!(c.program, "/py/bin/python3");
    assert_eq!(c.args, vec!["-m".to_string(), "venv".to_string(), "/tmp/venv".to_string()]);
}

#[test]
fn venv_outcomes() {
    assert_eq!(
        venv_outcome(true, "/tmp/venv", &v(3, 11, 0)),
        Ok("Created /tmp/venv with Python 3.11.0".to_string())
    );
    assert_eq!(venv_outcome(false, "/tmp/venv", &v(3, 11, 0)), Err(YenError::VenvFailed));
}

#[test]
fn release_urls_in_order() {
    let resp = GithubResp {
        assets: vec![
            Asset { browser_download_url: "u1".to_string() },
            Asset { browser_download_url: "u2".to_string() },
        ],
    };
    assert_eq!(resp.download_urls(), vec!["u1".to_string(), "u2".to_string()]);
}
