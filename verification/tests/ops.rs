use noull_pm::ops::{
    banner, cascade_of, closing, dry_run_command, echo, entry_matches, install, is_archive_of,
    name_variants, normalize, outcome, pacnew, plan_mega, preview, remove_mega, remove_normal,
    DirEntry, DryRun, Ended, MegaPlan, Survey,
};
use noull_pm::paths::{join, leftover_dirs};
use noull_pm::text::{chars_of, string_of};

fn strings(list: &[&str]) -> Vec<String> {
    list.iter().map(|s| s.to_string()).collect()
}

fn entries(list: &[(&str, &str)]) -> Vec<DirEntry> {
    list.iter().map(|(n, p)| DirEntry { name: n.to_string(), path: p.to_string() }).collect()
}

fn normal(s: &str) -> String {
    string_of(&normalize(&chars_of(s)))
}

fn survey() -> Survey {
    Survey {
        listings: strings(&["rg /etc/\nrg /etc/rg.conf\nrg /usr/bin/rg\nrg /etc/rg.d/a\n"]),
        orphans: "rust\npcre2\nnvm\n".to_string(),
        infos: strings(&[
            "Name : rg-bin\nDepends On : pcre2>=10 glibc libfoo\n",
            "Name : libfoo\nDepends On : pcre2 rust\n",
        ]),
        home: entries(&[
            ("RG", "/h/.config/RG"),
            ("rga", "/h/.config/rga"),
            ("org.rg.tool", "/h/.cache/org.rg.tool"),
            ("rg.tool", "/h/.cache/rg.tool"),
        ]),
        cache: entries(&[
            ("rg-bin-15.2.0-1-x86_64.pkg.tar.zst", "/c/1"),
            ("rg-bin-all-1.0-1.pkg.tar.zst", "/c/2"),
            ("libfoo-2-1.pkg.tar.zst", "/c/3"),
            ("rg-bin-", "/c/4"),
        ]),
    }
}

fn allowed() -> DryRun {
    DryRun {
        ok: true,
        stdout: "rg-bin\n libfoo \n\nwarning: a line\n".to_string(),
        stderr: String::new(),
    }
}

#[test]
fn a_plan_lists_what_goes() {
    let plan = plan_mega(&strings(&["rg-bin"]), &allowed(), &survey());
    assert_eq!(plan.packages, strings(&["rg-bin"]));
    assert_eq!(plan.cascade, strings(&["rg-bin", "libfoo"]));
    assert_eq!(plan.owned_files, 4);
    assert_eq!(plan.system_leftovers, strings(&["/etc/rg.conf.pacsave", "/etc/rg.d/a.pacsave"]));
    assert_eq!(plan.orphans, strings(&["pcre2", "rust"]));
    assert_eq!(plan.home_paths, strings(&["/h/.cache/org.rg.tool", "/h/.config/RG"]));
    assert_eq!(plan.cache_files, strings(&["/c/1", "/c/3"]));
    assert!(plan.error.is_none());
    assert!(plan.is_countable());
    assert_eq!(plan.total_extra(), 8);
}

#[test]
fn a_refused_plan_lists_nothing() {
    let dry_run = DryRun {
        ok: false,
        stdout: ":: removing ada breaks dependency\n:: removing ada breaks dependency\n".to_string(),
        stderr: "error: failed to prepare\n\n  :: removing ada breaks dependency \n".to_string(),
    };
    let plan = plan_mega(&strings(&["ada"]), &dry_run, &survey());
    assert_eq!(
        plan.error,
        Some("error: failed to prepare\n:: removing ada breaks dependency".to_string())
    );
    assert_eq!(plan.packages, strings(&["ada"]));
    assert!(plan.cascade.is_empty() && plan.orphans.is_empty() && plan.home_paths.is_empty());
    assert!(plan.system_leftovers.is_empty() && plan.cache_files.is_empty());
    assert_eq!(plan.owned_files, 0);
    assert_eq!(
        preview(&plan),
        Err("cannot remove:\nerror: failed to prepare\n:: removing ada breaks dependency".to_string())
    );
}

#[test]
fn the_dry_run_asks_for_names() {
    assert_eq!(
        dry_run_command(&strings(&["a", "b"])),
        strings(&["pacman", "-Rs", "--print", "--print-format", "%n", "a", "b"])
    );
    assert_eq!(cascade_of("a\n b c\n\n\td\n"), strings(&["a", "d"]));
}

#[test]
fn suffixes_give_variants() {
    assert_eq!(name_variants("foo"), strings(&["foo"]));
    assert_eq!(name_variants("foo-bin"), strings(&["foo-bin", "foo"]));
    assert_eq!(name_variants("github-desktop"), strings(&["github-desktop", "github"]));
    assert_eq!(name_variants("-bin"), strings(&["-bin"]));
}

#[test]
fn folders_are_matched_loosely() {
    assert_eq!(normal("GitHub Desktop"), "githubdesktop");
    assert_eq!(normal("github-desktop"), "githubdesktop");
    assert!(entry_matches("GitHub Desktop", &name_variants("github-desktop")));
    assert!(entry_matches("Bitwarden", &name_variants("bitwarden")));
    assert!(entry_matches("com.bitwarden.desktop", &name_variants("bitwarden")));
    assert!(!entry_matches("bitwarden.desktop", &name_variants("bitwarden")));
    assert!(!entry_matches("com.bitwardenx.desktop", &name_variants("bitwarden")));
    assert!(!entry_matches("other", &name_variants("bitwarden")));
}

#[test]
fn archives_are_told_from_neighbours() {
    assert!(is_archive_of("ripgrep-15.2.0-1-x86_64.pkg.tar.zst", "ripgrep"));
    assert!(!is_archive_of("ripgrep-all-0.10.9-1-x86_64.pkg.tar.zst", "ripgrep"));
    assert!(is_archive_of("ripgrep-all-0.10.9-1-x86_64.pkg.tar.zst", "ripgrep-all"));
    assert!(!is_archive_of("ripgrep-", "ripgrep"));
    assert!(!is_archive_of("ripgrep", "ripgrep"));
}

#[test]
fn installing_names_the_packages() {
    let job = install(&strings(&["a", "b"])).unwrap();
    assert_eq!(job.title, "Installing: a, b");
    assert_eq!(job.commands, vec![strings(&["yay", "-S", "--needed", "a", "b"])]);
    assert!(install(&Vec::new()).is_none());
}

#[test]
fn a_normal_removal_leaves_the_rest_alone() {
    let job = remove_normal(&strings(&["a"])).unwrap();
    assert_eq!(job.title, "Removing: a");
    assert_eq!(job.commands, vec![strings(&["yay", "-R", "a"])]);
    assert!(remove_normal(&Vec::new()).is_none());
}

#[test]
fn a_mega_removal_runs_what_the_plan_lists() {
    let plan = plan_mega(&strings(&["rg-bin"]), &allowed(), &survey());
    let job = remove_mega(&plan);
    assert_eq!(job.title, "MEGA DELETE: rg-bin");
    assert_eq!(
        job.commands,
        vec![
            strings(&["yay", "-Rns", "--noconfirm", "rg-bin"]),
            strings(&["sudo", "pacman", "-Rns", "--noconfirm", "pcre2", "rust"]),
            strings(&["rm", "-rf", "--", "/h/.cache/org.rg.tool"]),
            strings(&["rm", "-rf", "--", "/h/.config/RG"]),
            strings(&[
                "sudo",
                "rm",
                "-f",
                "--",
                "/etc/rg.conf.pacsave",
                "/etc/rg.conf.pacnew",
                "/etc/rg.d/a.pacsave",
                "/etc/rg.d/a.pacnew",
            ]),
            strings(&["sudo", "rm", "-f", "--", "/c/1", "/c/3"]),
        ]
    );
    let bare = remove_mega(&MegaPlan::default());
    assert_eq!(bare.commands, vec![strings(&["yay", "-Rns", "--noconfirm"])]);
}

#[test]
fn extensions_are_replaced() {
    assert_eq!(pacnew("/etc/a.conf.pacsave"), "/etc/a.conf.pacnew");
    assert_eq!(pacnew("/etc/.pacsave"), "/etc/.pacsave.pacnew");
    assert_eq!(pacnew("a"), "a.pacnew");
    assert_eq!(pacnew(""), "");
}

#[test]
fn extensions_are_replaced_behind_every_file_name() {
    let mut stems: Vec<String> = vec!["/".to_string()];
    for _ in 0..6 {
        let mut longer: Vec<String> = Vec::new();
        for stem in &stems {
            if !stem.ends_with('/') && !stem.ends_with("/.") {
                assert_eq!(pacnew(&format!("{stem}.pacsave")), format!("{stem}.pacnew"));
            }
            for c in ['/', '.', 'a', ' '] {
                longer.push(format!("{stem}{c}"));
            }
        }
        stems = longer;
    }
}

#[test]
fn the_preview_prints_the_plan() {
    let mut plan = plan_mega(&strings(&["rg-bin"]), &allowed(), &survey());
    for i in 0..12 {
        plan.system_leftovers.push(format!("/etc/{i}"));
    }
    let lines = preview(&plan).unwrap();
    assert_eq!(lines[0], "packages (2) — 4 files:");
    assert_eq!(lines[1], "  rg-bin");
    assert_eq!(lines[3], "\norphaned deps of these (2):");
    assert_eq!(lines[6], "\nhome leftovers (2):");
    assert_eq!(lines[9], "\nconfig leftover candidates (14):");
    assert_eq!(lines[19], "  /etc/7");
    assert_eq!(lines[20], "\ncached archives (2):");
    assert_eq!(lines[22], "  /c/3");
    assert_eq!(lines.len(), 23);
}

#[test]
fn the_plain_terminal_says_how_it_went() {
    assert_eq!(banner("Removing: a"), "\n\x1b[1;35m▌ Removing: a\x1b[0m\n");
    assert_eq!(echo(&strings(&["yay", "-R", "a"])), Some("\x1b[2m$ yay -R a\x1b[0m".to_string()));
    assert_eq!(echo(&Vec::new()), None);
    let failed = Ended::Failure("exit status: 1".to_string());
    let absent = Ended::Error("not found".to_string());
    assert_eq!(outcome(&Ended::Success), None);
    assert_eq!(
        outcome(&failed),
        Some("\x1b[1;31m  exited with exit status: 1\x1b[0m".to_string())
    );
    assert_eq!(
        outcome(&absent),
        Some("\x1b[1;31m  could not run: not found\x1b[0m".to_string())
    );
    assert_eq!(closing(&vec![Ended::Success]), "\n\x1b[1mPress Enter to continue\x1b[0m");
    assert_eq!(
        closing(&vec![Ended::Success, failed, Ended::Success]),
        "\n\x1b[1;33mSome steps did not finish — see above.\x1b[0m\n\n\x1b[1mPress Enter to continue\x1b[0m"
    );
}

#[test]
fn leftovers_are_looked_for_in_four_places() {
    assert_eq!(
        leftover_dirs("/home/u"),
        strings(&[
            "/home/u/.config",
            "/home/u/.cache",
            "/home/u/.local/share",
            "/home/u/.local/state",
        ])
    );
    for (dir, part) in [("/a", "b"), ("/a/", "b"), ("", "b"), ("a", "b/c")] {
        let expected = std::path::Path::new(dir).join(part).display().to_string();
        assert_eq!(join(dir, part), expected);
    }
}
