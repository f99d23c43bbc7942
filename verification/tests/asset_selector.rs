use sdkcore::platform::{Target, TargetArch, TargetEnv, TargetOs};
use sdkcore::version::asset_selector::{pick_asset, score_lowered, AssetCandidate};

/// The platform the selection tests were written for: Windows on x86_64.
fn host() -> Target {
    Target { os: TargetOs::Windows, arch: TargetArch::X86_64, env: TargetEnv::Msvc }
}

fn linux(env: TargetEnv) -> Target {
    Target { os: TargetOs::Linux, arch: TargetArch::X86_64, env }
}

fn mac_arm() -> Target {
    Target { os: TargetOs::MacOs, arch: TargetArch::Aarch64, env: TargetEnv::Other }
}

fn c(name: &str) -> AssetCandidate<'_> {
    AssetCandidate { name, download_url: "https://example.com" }
}

#[test]
fn bun_windows_prefers_plain_over_baseline() {
    let assets = [
        c("bun-windows-x64-baseline.zip"),
        c("bun-windows-x64.zip"),
        c("bun-windows-x64-profile.zip"),
    ];
    let picked = pick_asset(&assets, "bun", host()).unwrap();
    assert_eq!(picked.name, "bun-windows-x64.zip");
}

#[test]
fn bun_linux_prefers_gnu_over_musl() {
    let assets = [c("bun-linux-x64-musl.zip"), c("bun-linux-x64.zip")];
    let picked = pick_asset(&assets, "bun", host());
    assert!(picked.is_none());
}

#[test]
fn bun_mac_arm64_only_hits_on_mac() {
    let assets = [c("bun-darwin-aarch64.zip"), c("bun-darwin-x64.zip")];
    let picked = pick_asset(&assets, "bun", host());
    assert!(picked.is_none());
}

#[test]
fn codex_picks_main_binary_excluding_app_server_and_sibling_tools() {
    let assets = [
        c("bwrap-x86_64-unknown-linux-musl.tar.gz"),
        c("codex-app-server-x86_64-pc-windows-msvc.exe.zip"),
        c("codex-x86_64-pc-windows-msvc.exe.zip"),
        c("codex-x86_64-pc-windows-msvc.exe.tar.gz"),
    ];
    let picked = pick_asset(&assets, "codex", host()).unwrap();
    assert_eq!(picked.name, "codex-x86_64-pc-windows-msvc.exe.zip");
}

#[test]
fn uv_excludes_uvx_assets() {
    let assets = [c("uvx-x86_64-pc-windows-msvc.zip"), c("uv-x86_64-pc-windows-msvc.zip")];
    let picked = pick_asset(&assets, "uv", host()).unwrap();
    assert_eq!(picked.name, "uv-x86_64-pc-windows-msvc.zip");
}

#[test]
fn win32_x64_naming() {
    let assets = [c("tool-win32-x64.zip"), c("SHASUMS256.txt")];
    let picked = pick_asset(&assets, "tool", host()).unwrap();
    assert_eq!(picked.name, "tool-win32-x64.zip");
}

#[test]
fn pnpm_win32_word() {
    let assets = [c("pnpm-win32-x64.zip"), c("pnpm-linux-x64.tar.gz")];
    let picked = pick_asset(&assets, "pnpm", host()).unwrap();
    assert_eq!(picked.name, "pnpm-win32-x64.zip");
}

#[test]
fn gh_underscore_naming_and_amd64() {
    let assets = [
        c("gh_2.100.0_windows_amd64.zip"),
        c("gh_2.100.0_linux_amd64.tar.gz"),
        c("gh_2.100.0_checksums.txt"),
    ];
    let picked = pick_asset(&assets, "gh", host()).unwrap();
    assert_eq!(picked.name, "gh_2.100.0_windows_amd64.zip");
}

#[test]
fn deno_platform_triple_with_bsdiff_excluded() {
    let assets = [
        c("deno-x86_64-pc-windows-msvc.from-2.9.5.bsdiff"),
        c("deno-x86_64-pc-windows-msvc.zip"),
        c("deno-x86_64-pc-windows-msvc.sha256sum"),
    ];
    let picked = pick_asset(&assets, "deno", host()).unwrap();
    assert_eq!(picked.name, "deno-x86_64-pc-windows-msvc.zip");
}

#[test]
fn cmake_windows_with_version_tokens() {
    let assets = [
        c("cmake-4.3.5-files-v1.json"),
        c("cmake-4.3.5-windows-x86_64.zip"),
        c("cmake-4.3.5-windows-x86_64.msi"),
    ];
    let picked = pick_asset(&assets, "cmake", host()).unwrap();
    assert_eq!(picked.name, "cmake-4.3.5-windows-x86_64.zip");
}

#[test]
fn cmake_macos_universal_matches_any_arch() {
    let assets = [
        c("cmake-4.3.5-macos-universal.tar.gz"),
        c("cmake-4.3.5-macos10.10-universal.tar.gz"),
    ];
    let picked = pick_asset(&assets, "cmake", host());
    assert!(picked.is_none());
}

#[test]
fn terraform_assetless_release_returns_none() {
    let assets = [c("terraform_1.16.1_SHA256SUMS")];
    assert!(pick_asset(&assets, "terraform", host()).is_none());
}

#[test]
fn other_platform_assets_rejected() {
    let assets = [c("bun-linux-x64.zip"), c("bun-darwin-aarch64.zip")];
    let picked = pick_asset(&assets, "bun", host());
    assert!(picked.is_none());
}

// ── the same releases seen from other targets ──

#[test]
fn linux_gnu_host_prefers_plain_over_musl() {
    let assets = [c("bun-linux-x64-musl.zip"), c("bun-linux-x64.zip")];
    let picked = pick_asset(&assets, "bun", linux(TargetEnv::Gnu)).unwrap();
    assert_eq!(picked.name, "bun-linux-x64.zip");
}

#[test]
fn linux_musl_host_prefers_musl() {
    let assets = [c("bun-linux-x64-gnu.zip"), c("bun-linux-x64-musl.zip")];
    let picked = pick_asset(&assets, "bun", linux(TargetEnv::Musl)).unwrap();
    assert_eq!(picked.name, "bun-linux-x64-musl.zip");
}

#[test]
fn mac_arm_host_picks_aarch64() {
    let assets = [c("bun-darwin-aarch64.zip"), c("bun-darwin-x64.zip")];
    let picked = pick_asset(&assets, "bun", mac_arm()).unwrap();
    assert_eq!(picked.name, "bun-darwin-aarch64.zip");
}

#[test]
fn mac_host_prefers_exact_macos_word_on_tie() {
    let assets = [
        c("cmake-4.3.5-macos-universal.tar.gz"),
        c("cmake-4.3.5-macos10.10-universal.tar.gz"),
    ];
    let picked = pick_asset(&assets, "cmake", mac_arm()).unwrap();
    assert_eq!(picked.name, "cmake-4.3.5-macos-universal.tar.gz");
}

#[test]
fn upper_case_names_are_lowered() {
    let assets = [c("BUN-Windows-X64.ZIP")];
    let picked = pick_asset(&assets, "bun", host()).unwrap();
    assert_eq!(picked.name, "BUN-Windows-X64.ZIP");
}

#[test]
fn equal_scores_keep_first_listed() {
    let assets = [
        AssetCandidate { name: "gh_windows_amd64.zip", download_url: "first" },
        AssetCandidate { name: "gh-windows-x64.tgz", download_url: "second" },
    ];
    assert_eq!(pick_asset(&assets, "gh", host()).unwrap().download_url, "first");
}

#[test]
fn empty_candidate_list_gives_none() {
    assert!(pick_asset(&[], "bun", host()).is_none());
}

#[test]
fn scores_of_lowered_names() {
    let w = host();
    assert_eq!(score_lowered("bun-windows-x64.zip", "bun", w), Some(0));
    assert_eq!(score_lowered("bun-windows-x64-baseline.zip", "bun", w), Some(-4));
    assert_eq!(score_lowered("bun-windows-x64-baseline-debug.zip", "bun", w), Some(-8));
    assert_eq!(score_lowered("bun-linux-x64-musl.zip", "bun", linux(TargetEnv::Gnu)), Some(-3));
    assert_eq!(score_lowered("bun-linux-x64-gnu.zip", "bun", linux(TargetEnv::Musl)), Some(-3));
    assert_eq!(score_lowered("bun-windows.zip", "bun", w), None);
    assert_eq!(score_lowered("bun-x64.zip", "bun", w), None);
    assert_eq!(score_lowered("bun.zip", "bun", w), None);
    assert_eq!(score_lowered("bun-windows-x64.zip.zip", "bun", w), Some(0));
    assert_eq!(score_lowered("tool-v1.2-win-i686.tgz", "tool", Target { os: TargetOs::Windows, arch: TargetArch::Other, env: TargetEnv::Msvc }), Some(0));
}
