use noull_pm::names::NameSet;
use noull_pm::pacman::{
    aur_info, base_version, dep_name, deps_of, details_command, files, files_command,
    foreign_command, info_command, installed, installed_command, name_set, orphans, orphans_command,
    parse_qi, remote_details, search, search_command, split_list, Pkg,
};
use noull_pm::text::{chars_of, string_of};

fn strings(list: &[&str]) -> Vec<String> {
    list.iter().map(|s| s.to_string()).collect()
}

fn set(list: &[&str]) -> NameSet {
    name_set(&strings(list))
}

fn names(pkgs: &[Pkg]) -> Vec<String> {
    pkgs.iter().map(|p| p.name.clone()).collect()
}

fn base(version: &str) -> String {
    string_of(base_version(&chars_of(version)))
}

const QI: &str = "Name            : ripgrep\nVersion         : 15.2.0-1\nDescription     : A search tool\nURL             : https://example.org\nDepends On      : gcc-libs  pcre2>=10\n                  glibc\nOptional Deps   : bash: for completion\nRequired By     : None\nProvides        : grep=1  rg\nInstalled Size  : 4.3 MiB\nInstall Reason  : Explicitly installed\n\nName            : bash\nVersion         : 5.3-1\nDescription     : The shell: a GNU one\nDepends On      : None\nProvides        : sh\nRequired By     : ripgrep\n\n";

#[test]
fn release_is_cut_off() {
    assert_eq!(base("26.2.5-1"), "26.2.5");
    assert_eq!(base("1:1.6.8-1"), "1:1.6.8");
    assert_eq!(base("1.0"), "1.0");
    assert_eq!(base("a-b-c"), "a-b");
}

#[test]
fn dependencies_lose_their_constraints() {
    assert_eq!(dep_name("pcre2"), "pcre2");
    assert_eq!(dep_name("pacman>6.1"), "pacman");
    assert_eq!(dep_name("sh=1.0"), "sh");
    assert_eq!(dep_name("foo<2"), "foo");
    assert_eq!(dep_name("bash: for completion"), "bash");
    assert_eq!(dep_name("  spaced  "), "spaced");
    assert_eq!(dep_name("ü: x"), "ü");
    assert_eq!(dep_name(""), "");
}

#[test]
fn lists_are_split() {
    let read = |s: &str| split_list(&chars_of(s));
    assert_eq!(read("glibc  libgcc  pcre2"), strings(&["glibc", "libgcc", "pcre2"]));
    assert_eq!(read("None"), strings(&[]));
    assert_eq!(read("  "), strings(&[]));
    assert_eq!(read("bash: for completion"), strings(&["bash", "for", "completion"]));
    assert_eq!(read("a :: b"), strings(&["a", "b"]));
}

#[test]
fn records_are_read() {
    let pkgs = parse_qi(QI, &set(&["bash"]));
    assert_eq!(names(&pkgs), strings(&["ripgrep", "bash"]));
    let rg = &pkgs[0];
    assert_eq!(rg.version, "15.2.0-1");
    assert_eq!(rg.description, "A search tool");
    assert_eq!(rg.url, "https://example.org");
    assert_eq!(rg.depends, strings(&["gcc-libs", "pcre2>=10", "glibc"]));
    assert_eq!(rg.optdepends, strings(&["bash", "for", "completion"]));
    assert_eq!(rg.required_by, strings(&[]));
    assert_eq!(rg.provides, strings(&["grep=1", "rg"]));
    assert_eq!(rg.size, "4.3 MiB");
    assert_eq!(rg.install_reason, "Explicitly installed");
    assert_eq!(rg.repo, "repo");
    assert!(rg.installed && !rg.is_aur());
    assert_eq!(pkgs[1].description, "The shell: a GNU one");
    assert_eq!(pkgs[1].required_by, strings(&["ripgrep"]));
    assert_eq!(pkgs[1].repo, "aur");
    assert!(pkgs[1].is_aur());
    assert!(pkgs[1].votes.is_none());
}

#[test]
fn records_without_a_name_are_passed_over() {
    assert!(parse_qi("", &set(&[])).is_empty());
    assert!(parse_qi("Version : 1\n\n\n\n", &set(&[])).is_empty());
    assert!(parse_qi("error: no such package\n", &set(&[])).is_empty());
}

#[test]
fn installed_packages_are_sorted_by_name() {
    let pkgs = installed(" bash \n\n", QI);
    assert_eq!(names(&pkgs), strings(&["bash", "ripgrep"]));
    assert_eq!(pkgs[0].repo, "aur");
    assert_eq!(pkgs[1].repo, "repo");
    assert!(pkgs.iter().all(|p| p.installed));
}

const SS: &str = "aur/ripgrep-git 15.2.0.r3-1 (+12 0.53) [308d5h]\n    Git build\naur/fuzzy 0.0.2-2 (+0 0.00)\n    Dynamic live fuzzy finder using ripgrep\n    second line\nextra/ripgrep 15.2.0-1 (1.4 MiB 4.3 MiB) (Installed)\n    A search tool\nextra/ripgrep-all 0.10.9-1 (3.2 MiB 9 MiB)\n    rga\nnonsense\n\nextra/RIPGREP-x 1-1\n";

#[test]
fn results_are_ranked() {
    let found = search("ripgrep", SS, &set(&["ripgrep"]));
    assert_eq!(
        names(&found),
        strings(&["ripgrep", "RIPGREP-x", "ripgrep-all", "ripgrep-git", "fuzzy"])
    );
    assert!(found[0].installed);
    assert!(!found[2].installed);
    assert_eq!(found[0].description, "A search tool");
    assert_eq!(found[0].votes, None);
    assert_eq!(found[3].votes, Some("12".to_string()));
    assert_eq!(found[4].description, "Dynamic live fuzzy finder using ripgrep");
    assert_eq!(found[4].repo, "aur");
}

#[test]
fn parts_of_a_split_package_are_hidden() {
    let listing = "extra/libreoffice-fresh-af 26.2.5-1\nextra/libreoffice-fresh 26.2.5-1\nextra/libreoffice-still 25.8.7-5\nextra/libreoffice-still-af 25.8.7-1\nextra/libreoffice-extension-texmaths 0.52-1\nextra/python 3.13.7-1\nextra/python-numpy 2.3.3-1\nextra/libreoffice-freshly 26.2.5-1\n";
    let found = search("libreoffice", listing, &set(&[]));
    assert_eq!(
        names(&found),
        strings(&[
            "libreoffice-fresh",
            "libreoffice-still",
            "libreoffice-freshly",
            "libreoffice-extension-texmaths",
            "python",
            "python-numpy",
        ])
    );
}

#[test]
fn search_ignores_case() {
    let found = search("RIP", "extra/xrip 1-1\nextra/rip 1-1\nextra/ripper 2-1\n", &set(&[]));
    assert_eq!(names(&found), strings(&["rip", "ripper", "xrip"]));
}

#[test]
fn details_are_asked_for_where_they_are() {
    let mut pkg = Pkg::default();
    pkg.name = "foo".to_string();
    pkg.repo = "extra".to_string();
    assert_eq!(details_command(&pkg), strings(&["pacman", "-Si", "foo"]));
    pkg.repo = "aur".to_string();
    assert_eq!(
        details_command(&pkg),
        strings(&[
            "curl",
            "-sf",
            "--max-time",
            "10",
            "https://aur.archlinux.org/rpc/v5/info?arg[]=foo",
        ])
    );
}

#[test]
fn details_of_a_repo_package_keep_where_it_is_from() {
    let mut pkg = Pkg::default();
    pkg.name = "ripgrep".to_string();
    pkg.repo = "extra".to_string();
    let full = remote_details(&pkg, QI).unwrap();
    assert_eq!(full.name, "ripgrep");
    assert_eq!(full.repo, "extra");
    assert!(!full.installed);
    assert_eq!(full.depends, strings(&["gcc-libs", "pcre2>=10", "glibc"]));
    assert!(remote_details(&pkg, "").is_none());
}

const RPC: &str = "{\"resultcount\":1,\"results\":[{\"Name\":\"other\",\"Version\":\"1.2-3\",\"Description\":\"a \\\"b\\\"\\nc\",\"URL\":\"https:\\/\\/x.org\",\"Depends\":[\"qt6-base\\u003e=6\",\"zlib\"],\"OptDepends\":[\"x: [y\"],\"Sub\":{\"a\":1}}],\"type\":\"multiinfo\"}";

#[test]
fn details_of_an_aur_package_come_from_the_rpc() {
    let full = aur_info("foo", RPC).unwrap();
    assert_eq!(full.name, "foo");
    assert_eq!(full.version, "1.2-3");
    assert_eq!(full.description, "a \"b\"\nc");
    assert_eq!(full.url, "https://x.org");
    assert_eq!(full.repo, "aur");
    assert_eq!(full.depends, strings(&["qt6-base>=6", "zlib"]));
    assert_eq!(full.optdepends, strings(&["x: [y"]));
    assert!(!full.installed);
    let mut pkg = Pkg::default();
    pkg.name = "foo".to_string();
    pkg.repo = "aur".to_string();
    assert_eq!(remote_details(&pkg, RPC).unwrap().version, "1.2-3");
    assert!(aur_info("foo", "{\"results\":[]}").is_none());
    assert!(aur_info("foo", "").is_none());
}

#[test]
fn listings_are_read() {
    assert_eq!(
        files("bash /usr/\nbash /usr/bin/my file\nnothing\n"),
        strings(&["/usr/", "/usr/bin/my file"])
    );
    assert_eq!(deps_of(QI), strings(&["gcc-libs", "pcre2>=10", "glibc"]));
    assert_eq!(deps_of(""), strings(&[]));
    assert_eq!(orphans("a\n\n b \n"), strings(&["a", "b"]));
}

#[test]
fn sets_of_names_hold_each_once_in_order() {
    let mut s = set(&["b", "a", "b", "c"]);
    assert_eq!(s.len(), 3);
    assert_eq!(s.to_vec(), strings(&["a", "b", "c"]));
    assert!(s.contains("b"));
    assert!(s.remove("b"));
    assert!(!s.remove("b"));
    assert!(!s.contains("b"));
    s.insert("aa".to_string());
    assert_eq!(s.copy().to_vec(), strings(&["a", "aa", "c"]));
    assert!(!s.is_empty());
    assert!(NameSet::new().is_empty());
}

#[test]
fn queries_only_read() {
    assert_eq!(foreign_command(), strings(&["pacman", "-Qmq"]));
    assert_eq!(installed_command(), strings(&["pacman", "-Qi"]));
    assert_eq!(orphans_command(), strings(&["pacman", "-Qtdq"]));
    assert_eq!(info_command("a"), strings(&["pacman", "-Qi", "a"]));
    assert_eq!(files_command("a"), strings(&["pacman", "-Ql", "a"]));
    assert_eq!(search_command("a"), strings(&["yay", "-Ss", "a"]));
}
