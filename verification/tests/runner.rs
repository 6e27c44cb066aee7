//! Running of commands.

use onec_export::runner::{
    choose_console_text, console_line, console_log_line, decode_console_output, mask_command,
    ProcessRunner, Stream,
};

fn v(args: &[&str]) -> Vec<String> {
    args.iter().map(|s| s.to_string()).collect()
}

#[test]
fn masks_password_with_equals() {
    let out = mask_command(&v(&["ibcmd.exe", "--user=exchanges", "--password=abc"]));
    assert_eq!(out, "ibcmd.exe --user=exchanges --password=***");
}

#[test]
fn masks_password_as_separate_arg() {
    let out = mask_command(&v(&["ibcmd.exe", "--password", "abc", "output"]));
    assert_eq!(out, "ibcmd.exe --password *** output");
}

#[test]
fn masks_db_pwd_both_forms() {
    assert_eq!(mask_command(&v(&["ibcmd.exe", "--db-pwd=abc"])), "ibcmd.exe --db-pwd=***");
    assert_eq!(mask_command(&v(&["ibcmd.exe", "--db-pwd", "abc"])), "ibcmd.exe --db-pwd ***");
}

#[test]
fn masks_short_pwd_key() {
    assert_eq!(mask_command(&v(&["ibcmd.exe", "--pwd=abc"])), "ibcmd.exe --pwd=***");
}

#[test]
fn masks_platform_slash_p() {
    let out = mask_command(&v(&["1cv8.exe", "ENTERPRISE", "/Nvasya", "/Pabc"]));
    assert_eq!(out, "1cv8.exe ENTERPRISE /Nvasya /P***");
}

#[test]
fn masks_platform_password_with_an_equals_sign() {
    assert_eq!(mask_command(&v(&["1cv8.exe", "/Pa=b"])), "1cv8.exe /P***");
}

#[test]
fn empty_password_stays_as_is() {
    let empty_key = format!("--{}=", "password");
    assert_eq!(mask_command(&v(&["ibcmd.exe", &empty_key])), "ibcmd.exe --password=");
    assert_eq!(mask_command(&v(&["ibcmd.exe", "--password", ""])), "ibcmd.exe --password ");
    assert_eq!(mask_command(&v(&["1cv8.exe", "/P"])), "1cv8.exe /P");
}

#[test]
fn masks_password_with_special_chars_and_spaces() {
    let out = mask_command(&v(&["ibcmd.exe", "--password=p@ss w0rd!#$%"]));
    assert_eq!(out, "ibcmd.exe --password=***");
    let out = mask_command(&v(&["1cv8.exe", "/Pп@роль с пробелом"]));
    assert_eq!(out, "1cv8.exe /P***");
}

#[test]
fn login_and_other_args_untouched() {
    let out = mask_command(&v(&[
        "C:/Program Files/1cv8/bin/ibcmd.exe",
        "infobase",
        "config",
        "export",
        "--extension=Расш",
        "--db-server=sql-01",
        "--dbms=MSSQLServer",
        "--db-name=demo",
        "--user=export_user",
        "E:/export/extensions/Расш",
    ]));
    assert_eq!(
        out,
        "\"C:/Program Files/1cv8/bin/ibcmd.exe\" infobase config export \
             --extension=Расш --db-server=sql-01 --dbms=MSSQLServer --db-name=demo \
             --user=export_user E:/export/extensions/Расш"
    );
}

#[test]
fn full_real_command_from_defect_report() {
    let out = mask_command(&v(&[
        "C:/Program Files/1cv8/8.3.27.2214/bin/ibcmd.exe",
        "infobase",
        "config",
        "export",
        "--extension=Имя",
        "--dbms=MSSQLServer",
        "--user=export_user",
        "--password=НастоящийПароль",
        "E:/export\\extensions\\Имя",
    ]));
    assert!(!out.contains("НастоящийПароль"), "{}", out);
    assert!(out.contains("--password=***"));
    assert!(out.contains("--user=export_user"));
}

#[test]
fn console_text_is_decoded() {
    assert_eq!(decode_console_output("Привет".as_bytes()), "Привет");
    // the word in the code page of the console
    let dos = [0x8F, 0xE0, 0xA8, 0xA2, 0xA5, 0xE2];
    assert_eq!(decode_console_output(&dos), "Привет");
    assert_eq!(choose_console_text("a".to_string(), false, "b".to_string()), "a");
}

#[test]
fn streams_are_collected_apart() {
    let lines = vec![
        (Stream::Stdout, "a".to_string()),
        (Stream::Stderr, "b".to_string()),
        (Stream::Stdout, "c".to_string()),
    ];
    let r = ProcessRunner::finish(0, &lines);
    assert!(r.success);
    assert_eq!(r.stdout.lines().collect::<Vec<_>>(), vec!["a", "c"]);
    assert_eq!(r.stderr.lines().collect::<Vec<_>>(), vec!["b"]);
    assert!(!ProcessRunner::finish(3, &lines).success);
    assert_eq!(console_line("\r\n"), None);
    assert_eq!(console_line("  a \r\n").as_deref(), Some("  a "));
    assert!(console_log_line(Stream::Stderr, "b").contains('b'));
}
