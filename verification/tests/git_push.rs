//! Synchronisation with a git repository.

use onec_export::git_push::{
    command_args, commit_and_push, commit_and_push_with_console, config_args,
    default_commit_message, ensure_repo_and_remote, error_tail, gc_start_message, git_failed,
    git_gc, human_size, inject_credentials, mask_secret, mask_url_creds, total_size, url_encode,
    GitAction, GitAuth, GitOptions, GitReply,
};

#[test]
fn human_size_formats_units() {
    assert_eq!(human_size(0), "0 B");
    assert_eq!(human_size(512), "512 B");
    assert_eq!(human_size(1024), "1.00 KiB");
    assert_eq!(human_size(1536), "1.50 KiB");
    assert_eq!(human_size(1024 * 1024), "1.00 MiB");
    assert_eq!(human_size(1024 * 1024 * 1024), "1.00 GiB");
}

#[test]
fn sizes_are_rounded_as_floating_point_numbers_are() {
    let kib = 1024f64;
    for n in [1029u64, 1034, 1039, 1044, 5_555, 99_999, 1_048_575] {
        assert_eq!(human_size(n), format!("{:.2} KiB", n as f64 / kib), "{}", n);
    }
    for n in [1_048_576u64, 1_053_818, 123_456_789, 1_073_741_823] {
        assert_eq!(human_size(n), format!("{:.2} MiB", n as f64 / kib / kib), "{}", n);
    }
    for n in [1_079_110_533u64, 9_007_199_254_740_993, 36_028_797_018_963_971, u64::MAX] {
        assert_eq!(human_size(n), format!("{:.2} GiB", n as f64 / kib / kib / kib), "{}", n);
    }
}

#[test]
fn mask_secret_hides_password_plain_and_encoded() {
    let text = format!(
        "fatal: Authentication failed for 'https://user:p%40ss{}gitlab/x.git' (p@ss)",
        '@'
    );
    let masked = mask_secret(&text, "p@ss");
    assert!(!masked.contains("p@ss"), "{}", masked);
    assert!(!masked.contains("p%40ss"), "{}", masked);
    assert_eq!(mask_secret(&text, ""), text);
}

#[test]
fn mask_url_creds_hides_password_in_push_args() {
    let at = '@';
    let host = "gitlab.local/u/repo.git";
    let with_creds = format!("push --progress https://vasya:pa55{at}{host} HEAD:main");
    let expected = format!("push --progress https://vasya:***{at}{host} HEAD:main");
    assert_eq!(mask_url_creds(&with_creds), expected);
    assert_eq!(
        mask_url_creds("push --progress https://gitlab.local/u/repo.git HEAD:main"),
        "push --progress https://gitlab.local/u/repo.git HEAD:main"
    );
    assert_eq!(
        mask_url_creds("https://vasya@gitlab.local/u/repo.git"),
        "https://vasya@gitlab.local/u/repo.git"
    );
    assert_eq!(
        mask_url_creds("https://gitlab.local:8443/u/repo.git"),
        "https://gitlab.local:8443/u/repo.git"
    );
    assert_eq!(mask_url_creds("push --progress"), "push --progress");
}

#[test]
fn error_tail_takes_last_meaningful_lines() {
    let out = "Counting objects\n\n remote: GitLab: You are not allowed to push\n\
                   ! [remote rejected] main -> main\nerror: failed to push some refs\n";
    let tail = error_tail(out);
    assert!(tail.contains("failed to push some refs"));
    assert!(tail.contains("remote rejected"));
    assert!(!tail.contains("Counting objects"), "{}", tail);
    assert_eq!(error_tail(""), "");
    let long = "x".repeat(500);
    assert!(error_tail(&long).chars().count() <= 301);
}

#[test]
fn reported_tail_tells_no_password() {
    let secret = "p@ss";
    let out = "remote: p@ss\nfatal: https://u:p%40ss/x\n".repeat(100);
    let tail = error_tail(&mask_secret(&out, secret));
    assert!(!tail.contains(secret) && !tail.contains(&url_encode(secret)), "{}", tail);
    // lines are joined after the mask, so this one comes together again
    assert_eq!(error_tail(&mask_secret("a\nb", "a; b")), "a; b");
}

#[test]
fn config_args_passes_autocrlf_and_always_disables_gc() {
    assert_eq!(
        config_args(&GitOptions::default()),
        vec!["-c", "core.autocrlf=false", "-c", "gc.auto=0"]
    );
    assert_eq!(
        config_args(&GitOptions::new("input")),
        vec!["-c", "core.autocrlf=input", "-c", "gc.auto=0"]
    );
    assert_eq!(config_args(&GitOptions::new("   ")), vec!["-c", "gc.auto=0"]);
    assert_eq!(
        command_args("C:/Repos/demo-ut", &GitOptions::default()),
        vec!["-C", "C:/Repos/demo-ut", "-c", "core.autocrlf=false", "-c", "gc.auto=0"]
    );
}

#[test]
fn login_is_put_into_the_address() {
    assert_eq!(url_encode("p@s s/Ё"), "p%40s%20s%2FЁ");
    assert_eq!(url_encode("@:/#? "), "%40%3A%2F%23%3F%20");
    assert_eq!(url_encode("50%"), "50%");
    let at = '@';
    assert_eq!(
        inject_credentials("https://host/x.git", "u", "p@"),
        format!("https://u:p%40{at}host/x.git")
    );
    assert_eq!(inject_credentials("git@host:x.git", "u", "p"), "git@host:x.git");
}

fn run_args<T>(a: &GitAction<T>) -> Vec<String> {
    match a {
        GitAction::Code(v) | GitAction::Run(v) | GitAction::Push(v) => v.clone(),
        GitAction::Finish(_) => Vec::new(),
    }
}

#[test]
fn push_in_a_domain() {
    let (mut job, action) = commit_and_push("/r", "Update", &GitAuth::Domain);
    assert_eq!(run_args(&action)[0], "rev-parse");
    assert_eq!(run_args(&job.step(GitReply::Code(0))), ["add", "-A"]);
    assert_eq!(
        run_args(&job.step(GitReply::Output(String::new()))),
        ["diff", "--cached", "--quiet"]
    );
    assert_eq!(run_args(&job.step(GitReply::Code(1))), ["commit", "-m", "Update"]);
    job.step(GitReply::Output(String::new()));
    assert_eq!(run_args(&job.step(GitReply::Code(1))), ["rev-parse", "--abbrev-ref", "HEAD"]);
    let push = job.step(GitReply::Output("main\n".to_string()));
    assert!(run_args(&push).ends_with(&[
        "--set-upstream".to_string(),
        "origin".to_string(),
        "main".to_string()
    ]));
    match job.step(GitReply::Pushed(0, String::new())) {
        GitAction::Finish(Ok(r)) => assert!(r.committed && r.pushed),
        other => panic!("{:?}", other),
    }
}

#[test]
fn failed_push_tells_no_password() {
    let auth = GitAuth::UserPassword { user: "u".to_string(), password: "p@ss".to_string() };
    let (mut job, _) = commit_and_push_with_console("/r", "m", &auth, false);
    job.step(GitReply::Code(0));
    job.step(GitReply::Output(String::new()));
    job.step(GitReply::Code(0));
    job.step(GitReply::Output("https://host/x.git\n".to_string()));
    let push = job.step(GitReply::Output("main".to_string()));
    let at = '@';
    assert!(
        run_args(&push).contains(&format!("https://u:p%40ss{at}host/x.git")),
        "{:?}",
        push
    );
    assert!(!run_args(&push).contains(&"--progress".to_string()));
    let said = format!("fatal: https://u:p%40ss{at}host/x.git: p@ss");
    assert!(!job.visible_output(&said).contains("p%40ss"));
    match job.step(GitReply::Pushed(128, said)) {
        GitAction::Finish(Err(e)) => {
            assert!(e.contains("128"), "{}", e);
            assert!(!e.contains("p@ss") && !e.contains("p%40ss"), "{}", e);
        }
        other => panic!("{:?}", other),
    }
}

#[test]
fn directory_without_repository_is_refused() {
    let (mut job, _) = commit_and_push("/r", "m", &GitAuth::Domain);
    match job.step(GitReply::Code(128)) {
        GitAction::Finish(Err(e)) => assert_eq!(e, "/r не является git-репозиторием"),
        other => panic!("{:?}", other),
    }
}

#[test]
fn remote_is_set_where_it_differs() {
    let (mut job, _) = ensure_repo_and_remote(" https://h/x.git ");
    assert_eq!(run_args(&job.step(GitReply::Code(128))), ["init", "-b", "main"]);
    job.step(GitReply::Output(String::new()));
    assert_eq!(run_args(&job.step(GitReply::Code(0))), ["remote", "get-url", "origin"]);
    assert_eq!(
        run_args(&job.step(GitReply::Output("https://old/x.git".to_string()))),
        ["remote", "set-url", "origin", "https://h/x.git"]
    );
    assert!(matches!(
        job.step(GitReply::Output(String::new())),
        GitAction::Finish(Ok(()))
    ));
}

#[test]
fn commits_are_named_after_the_day() {
    let today = chrono::Local::now().format("Update_%Y%m%d").to_string();
    let name = default_commit_message();
    let after = chrono::Local::now().format("Update_%Y%m%d").to_string();
    assert!(name == today || name == after, "{}", name);
}

#[test]
fn collection_of_garbage_is_planned() {
    let plan = git_gc(true);
    assert_eq!(plan.args, vec!["gc", "--aggressive", "--prune=now"]);
    let plain = git_gc(false);
    assert_eq!(plain.label, "--auto");
    // The threshold comes behind the setting of every command, and so counts.
    assert_eq!(plain.args, vec!["-c", "gc.auto=6700", "gc", "--auto"]);
    assert!(gc_start_message(&plan, 2048).contains("2.00 KiB"));
    assert_eq!(total_size(&[1, 2, 3]), 6);
    assert_eq!(total_size(&[]), 0);
    assert!(git_failed(&vec!["add".to_string()], 7).contains('7'));
}

#[test]
fn mask_and_asterisks() {
    assert_eq!(mask_secret("x a*b y", "a*b"), "x *** y");
    // A password that begins with an asterisk comes back out of the mask.
    assert_eq!(mask_secret("*xxx", "*x"), "*****x");
}

#[test]
fn every_address_of_a_line_is_masked() {
    let at = '@';
    let line = format!("a http://u:p1{at}h/x push https://v:p2{at}h/y HEAD:main");
    assert_eq!(
        mask_url_creds(&line),
        format!("a http://u:***{at}h/x push https://v:***{at}h/y HEAD:main")
    );
}
