use pacrid::config::Config;
use pacrid::pacman::db::PacmanDb;
use pacrid::scanners::name_heuristic::{
    check_dotfiles, check_system_paths, check_xdg_direct, name_variants, probe, probes_for_package,
    title_case_join, xdg_bases_of, ConfidenceCap, NameHeuristicScanner, Probe,
};
use pacrid::scanners::{Category, Confidence, Reason, ScanContext};

fn ctx(packages: &[&str]) -> ScanContext {
    ScanContext {
        removed_packages: packages.iter().map(|p| p.to_string()).collect(),
        pacman_db: PacmanDb::default(),
        config: Config::default(),
        home_dir: "/home/u".to_owned(),
    }
}

#[test]
fn name_variants_include_camelcase() {
    let v = name_variants("brave-origin-nightly");
    assert!(v.iter().any(|s| s == "Brave-Origin-Nightly"), "{v:?}");
    assert!(v.iter().any(|s| s == "BraveOriginNightly"), "{v:?}");
    assert!(v.iter().any(|s| s == "brave-origin-nightly"), "{v:?}");
}

#[test]
fn name_variants_sorted_without_repeats() {
    let v = name_variants("my_app");
    assert_eq!(
        v,
        vec!["My-App".to_owned(), "MyApp".to_owned(), "My_App".to_owned(), "my-app".to_owned(), "my_app".to_owned()]
    );
}

#[test]
fn title_case_joins_words() {
    assert_eq!(title_case_join("brave-origin", "_"), "Brave_Origin");
    assert_eq!(title_case_join("a--b", ""), "AB");
    assert_eq!(title_case_join("", "-"), "");
}

#[test]
fn probes_under_home_and_system() {
    let bases = xdg_bases_of("/home/u");
    let direct = check_xdg_direct("steam", &bases);
    let paths: Vec<&str> = direct.iter().map(|p| p.path.as_str()).collect();
    assert_eq!(
        paths,
        vec!["/home/u/.config/steam", "/home/u/.cache/steam", "/home/u/.local/share/steam", "/home/u/.local/state/steam"]
    );
    let dots = check_dotfiles("steam", "/home/u");
    assert_eq!(dots[0].path, "/home/u/.steam");
    assert_eq!(dots[1].path, "/home/u/.steamrc");
    let sys = check_system_paths("steam");
    assert_eq!(sys.len(), 6);
    assert_eq!(sys[5].path, "/var/lib/steam");
    assert_eq!(sys[5].cap, ConfidenceCap::AlwaysLow);
    assert!(!sys[0].with_exe_gone);
}

#[test]
fn ignored_or_present_package_gets_no_probes() {
    let mut c = ctx(&["steam"]);
    assert!(probes_for_package("steam", &c, &[], false).is_empty());
    c.config.ignore.packages.push("steam".to_owned());
    assert!(probes_for_package("steam", &c, &[], true).is_empty());
}

#[test]
fn gone_package_probes_every_variant() {
    let c = ctx(&["fakepkg"]);
    let nested = vec![("/home/u/.config/Vendor".to_owned(), Category::Config)];
    let probes = probes_for_package("fakepkg-bin", &c, &nested, true);
    // Two name variants ("Fakepkg", "fakepkg"), each with 4 XDG + 1 nested
    // + 2 dot-files + 6 system paths.
    assert_eq!(probes.len(), 26);
    assert_eq!(probes[0].path, "/home/u/.config/Fakepkg");
    assert_eq!(probes[4].path, "/home/u/.config/Vendor/Fakepkg");
    assert_eq!(probes[13].path, "/home/u/.config/fakepkg");
}

#[test]
fn probe_scores_and_caps() {
    let cfg = Config::default();
    let p = Probe { path: "/home/u/.config/steam".to_owned(), with_exe_gone: true, category: Category::Config, cap: ConfidenceCap::Unchanged };
    let f = probe(&p, "steam", &cfg, "/home/u", true, 100).unwrap();
    assert_eq!(f.confidence, Confidence::High);
    assert_eq!(f.reasons, vec![Reason::ExactNameMatch, Reason::ExecutableGone("steam".to_owned())]);
    assert!(probe(&p, "steam", &cfg, "/home/u", false, 100).is_none());
    let etc = Probe { path: "/etc/steam".to_owned(), with_exe_gone: false, category: Category::Config, cap: ConfidenceCap::AtMostMedium };
    assert_eq!(probe(&etc, "steam", &cfg, "/home/u", true, 1).unwrap().confidence, Confidence::Medium);
    let lib = Probe { path: "/var/lib/steam".to_owned(), with_exe_gone: false, category: Category::State, cap: ConfidenceCap::AlwaysLow };
    assert_eq!(probe(&lib, "steam", &cfg, "/home/u", true, 1).unwrap().confidence, Confidence::Low);
    let mut ignoring = Config::default();
    ignoring.ignore.paths.push("/home/u/.config/steam/".to_owned());
    assert!(probe(&p, "steam", &ignoring, "/home/u", true, 100).is_none());
}

#[test]
fn scan_findings_follow_the_plan() {
    let scanner = NameHeuristicScanner;
    assert_eq!(scanner.name(), "name_heuristic");
    let c = ctx(&["__pacrid_no_such_exe__"]);
    let plan = scanner.plan(&c, &[]);
    assert_eq!(plan.len(), 1);
    let seen: Vec<Vec<(bool, u64)>> = plan
        .iter()
        .map(|pp| pp.probes.iter().enumerate().map(|(i, _)| (i == 0, 10)).collect())
        .collect();
    let findings = scanner.findings(&c, &plan, &seen);
    assert_eq!(findings.len(), 1);
    assert_eq!(findings[0].path, plan[0].probes[0].path);
    assert_eq!(findings[0].package, "__pacrid_no_such_exe__");
}

#[test]
fn home_probes_stay_under_the_given_home() {
    let home = "/home/alice";
    let xdg = check_xdg_direct("steam", &xdg_bases_of(home));
    assert_eq!(xdg.len(), 4);
    for p in xdg.iter().chain(check_dotfiles("steam", home).iter()) {
        assert!(p.path.starts_with("/home/alice/"), "{}", p.path);
    }
}
