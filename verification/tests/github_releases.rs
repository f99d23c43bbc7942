use sdkcore::platform::{Target, TargetArch, TargetEnv, TargetOs};
use sdkcore::version::github_releases::{
    ensure_per_page, github_api_headers, is_github_releases_url, releases_to_entries, strip_tag_prefix, GitHubAsset,
    GitHubRelease,
};

fn windows() -> Target {
    Target { os: TargetOs::Windows, arch: TargetArch::X86_64, env: TargetEnv::Msvc }
}

/// Reads a releases listing as the program does (through `serde_json`).
fn releases_from_json(body: &str) -> Result<Vec<GitHubRelease>, String> {
    let v: serde_json::Value = serde_json::from_str(body).map_err(|e| e.to_string())?;
    let arr = v.as_array().ok_or_else(|| "not an array".to_string())?;
    let mut out = Vec::new();
    for r in arr {
        let assets = r["assets"]
            .as_array()
            .map(|a| {
                a.iter()
                    .map(|x| GitHubAsset {
                        name: x["name"].as_str().unwrap_or("").to_string(),
                        browser_download_url: x["browser_download_url"].as_str().unwrap_or("").to_string(),
                    })
                    .collect()
            })
            .unwrap_or_default();
        out.push(GitHubRelease {
            tag_name: r["tag_name"].as_str().unwrap_or("").to_string(),
            prerelease: r["prerelease"].as_bool().unwrap_or(false),
            draft: r["draft"].as_bool().unwrap_or(false),
            assets,
        });
    }
    Ok(out)
}

#[test]
fn tag_prefix_stripping_all_shapes() {
    assert_eq!(strip_tag_prefix("bun-v1.4.2").as_deref(), Some("1.4.2"));
    assert_eq!(strip_tag_prefix("rust-v0.153.4").as_deref(), Some("0.153.4"));
    assert_eq!(strip_tag_prefix("v2.9.6").as_deref(), Some("2.9.6"));
    assert_eq!(strip_tag_prefix("0.12.11").as_deref(), Some("0.12.11"));
    assert_eq!(strip_tag_prefix("v4.2.4").as_deref(), Some("4.2.4"));
    assert_eq!(strip_tag_prefix("merge_analyzer_branch"), None);
    assert_eq!(strip_tag_prefix("latest"), None);
}

#[test]
fn url_detection_and_per_page() {
    assert!(is_github_releases_url("https://api.github.com/repos/oven-sh/bun/releases"));
    assert!(!is_github_releases_url("https://nodejs.org/dist/index.json"));
    assert!(!is_github_releases_url("https://services.gradle.org/versions/all"));
    assert_eq!(
        ensure_per_page("https://api.github.com/repos/a/b/releases"),
        "https://api.github.com/repos/a/b/releases?per_page=100"
    );
    assert_eq!(
        ensure_per_page("https://api.github.com/repos/a/b/releases?draft=true"),
        "https://api.github.com/repos/a/b/releases?draft=true&per_page=100"
    );
    assert_eq!(
        ensure_per_page("https://api.github.com/repos/a/b/releases?per_page=50"),
        "https://api.github.com/repos/a/b/releases?per_page=50"
    );
    assert_eq!(ensure_per_page("https://go.dev/dl/?mode=json"), "https://go.dev/dl/?mode=json");
}

const BUN_BODY: &str = r#"[
  {
    "tag_name": "bun-v1.4.2",
    "prerelease": false,
    "draft": false,
    "assets": [
      {"name": "bun-windows-x64-baseline.zip", "browser_download_url": "https://x/baseline.zip"},
      {"name": "bun-windows-x64.zip", "browser_download_url": "https://x/plain.zip"},
      {"name": "bun-linux-x64-musl.zip", "browser_download_url": "https://x/musl.zip"}
    ]
  },
  {
    "tag_name": "bun-v1.4.1-rc.1",
    "prerelease": true,
    "draft": false,
    "assets": []
  },
  {
    "tag_name": "not-a-release-tag",
    "prerelease": false,
    "draft": false,
    "assets": []
  }
]"#;

#[test]
fn parse_bun_releases_end_to_end() {
    let releases = releases_from_json(BUN_BODY).unwrap();
    let entries = releases_to_entries(&releases, "bun", windows());
    assert_eq!(entries.len(), 1);
    let e = &entries[0];
    assert_eq!(e.full_version, "1.4.2");
    assert_eq!(e.feature_version.as_deref(), Some("1"));
    assert_eq!(e.release_tag.as_deref(), Some("bun-v1.4.2"));
    let url = e.download_url.clone().unwrap_or_default();
    assert!(url.ends_with("plain.zip") || url.ends_with("musl.zip"), "got {}", url);
}

#[test]
fn parse_helm_signature_only_release_falls_to_template() {
    let body = r#"[{
      "tag_name": "v4.2.4",
      "prerelease": false,
      "draft": false,
      "assets": [
        {"name": "helm-v4.2.4-windows-amd64.zip.sha256", "browser_download_url": "https://x/sha"},
        {"name": "helm-v4.2.4-windows-amd64.zip.asc", "browser_download_url": "https://x/asc"}
      ]
    }]"#;
    let releases = releases_from_json(body).unwrap();
    let entries = releases_to_entries(&releases, "helm", windows());
    assert_eq!(entries.len(), 1);
    assert_eq!(entries[0].full_version, "4.2.4");
    assert!(entries[0].download_url.is_none());
}

#[test]
fn parse_empty_and_malformed() {
    let releases = releases_from_json("[]").unwrap();
    assert!(releases_to_entries(&releases, "bun", windows()).is_empty());
    assert!(releases_from_json("not json").is_err());
}

#[test]
fn releases_are_listed_newest_first() {
    let mk = |tag: &str| GitHubRelease { tag_name: tag.to_string(), prerelease: false, draft: false, assets: vec![] };
    let releases = vec![mk("v1.2.0"), mk("v1.10.0"), mk("v1.9.3"), mk("draft-like")];
    let entries = releases_to_entries(&releases, "tool", windows());
    let versions: Vec<&str> = entries.iter().map(|e| e.full_version.as_str()).collect();
    assert_eq!(versions, vec!["1.10.0", "1.9.3", "1.2.0"]);
}

#[test]
fn drafts_are_skipped() {
    let releases = vec![GitHubRelease { tag_name: "v2.0.0".to_string(), prerelease: false, draft: true, assets: vec![] }];
    assert!(releases_to_entries(&releases, "tool", windows()).is_empty());
}

#[test]
fn api_headers_ask_for_github_json() {
    let h = github_api_headers();
    assert_eq!(h, vec![("Accept".to_string(), "application/vnd.github+json".to_string())]);
}
