use taskfleet::job::{AsyncTask, CommandTask, HostTask};
use taskfleet::message::{CommandSpec, HostSpec, TaskError, TaskType};

fn command(shell: bool) -> CommandTask {
    CommandTask {
        command_spec: CommandSpec {
            cmd: "echo".to_string(),
            args: vec!["hello".to_string(), "big world".to_string()],
            cwd: "/tmp".to_string(),
            shell,
        },
    }
}

fn host_task(ip: &str, hosts: &[&str]) -> HostTask {
    HostTask {
        host_spec: HostSpec {
            ip: ip.to_string(),
            hosts: hosts.iter().map(|h| h.to_string()).collect(),
        },
    }
}

/// The rewriting as the standard library's string functions spell it.
fn by_std(content: &str, ip: &str, hosts: &[&str]) -> String {
    let mut out = String::new();
    let mut found = false;
    let eol = if content.contains("\r\n") { "\r\n" } else { "\n" };
    for line in content.lines() {
        if line.trim_start().starts_with(ip) {
            found = true;
            out.push_str(ip);
            let origin: Vec<&str> = line.split_ascii_whitespace().skip(1).collect();
            for host in &origin {
                out.push(' ');
                out.push_str(host);
            }
            for host in hosts.iter().filter(|h| origin.contains(h)) {
                out.push(' ');
                out.push_str(host);
            }
            out.push_str(eol);
        } else {
            out.push_str(line);
            out.push_str(eol);
        }
    }
    if !found {
        out.push_str(ip);
        for host in hosts {
            out.push(' ');
            out.push_str(host);
        }
        out.push_str(eol);
    }
    out
}

#[test]
fn a_plain_command_is_the_command_and_its_arguments() {
    let expected = vec!["echo".to_string(), "hello".to_string(), "big world".to_string()];
    assert_eq!(command(false).command_line("linux"), Ok(expected.clone()));
    assert_eq!(command(false).command_line("plan9"), Ok(expected));
}

#[test]
fn a_linux_shell_gets_one_joined_argument() {
    assert_eq!(
        command(true).command_line("linux"),
        Ok(vec!["/bin/sh".to_string(), "-c".to_string(), "echo hello big world".to_string()])
    );
}

#[test]
fn a_windows_shell_gets_the_arguments_as_they_stand() {
    assert_eq!(
        command(true).command_line("windows"),
        Ok(vec![
            "C:\\Windows\\System32\\cmd.exe".to_string(),
            "/C".to_string(),
            "echo".to_string(),
            "hello".to_string(),
            "big world".to_string(),
        ])
    );
}

#[test]
fn no_shell_on_another_platform() {
    assert_eq!(
        command(true).command_line("macos"),
        Err(TaskError::UnsupportedPlatform("macos".to_string()))
    );
}

#[test]
fn a_command_without_arguments() {
    let task = CommandTask {
        command_spec: CommandSpec {
            cmd: "true".to_string(),
            args: vec![],
            cwd: ".".to_string(),
            shell: true,
        },
    };
    assert_eq!(
        task.command_line("linux"),
        Ok(vec!["/bin/sh".to_string(), "-c".to_string(), "true".to_string()])
    );
}

#[test]
fn body_is_made_from_the_description() {
    let spec = TaskType::Hosts(HostSpec { ip: "10.0.0.1".to_string(), hosts: vec![] });
    match AsyncTask::make(&spec) {
        AsyncTask::Hosts(t) => assert_eq!(t.host_spec.ip, "10.0.0.1"),
        _ => panic!("a hosts body was asked for"),
    }
    assert!(matches!(AsyncTask::make(&spec).dup(), AsyncTask::Hosts(_)));
}

#[test]
fn hosts_line_is_added_where_the_address_is_new() {
    let task = host_task("10.0.0.5", &["db", "cache"]);
    assert_eq!(
        task.rewrite("127.0.0.1 localhost\n"),
        "127.0.0.1 localhost\n10.0.0.5 db cache\n"
    );
    assert_eq!(task.rewrite(""), "10.0.0.5 db cache\n");
}

#[test]
fn hosts_line_of_the_address_is_rewritten() {
    let task = host_task("10.0.0.5", &["db", "cache"]);
    assert_eq!(
        task.rewrite("127.0.0.1 localhost\n  10.0.0.5\t web   db\n# end"),
        "127.0.0.1 localhost\n10.0.0.5 web db db\n# end\n"
    );
}

#[test]
fn hosts_line_endings_follow_the_file() {
    let task = host_task("10.0.0.5", &["db"]);
    assert_eq!(task.rewrite("a\r\nb\n"), "a\r\nb\r\n10.0.0.5 db\r\n");
    assert_eq!(task.rewrite("a\rb\n"), "a\rb\n10.0.0.5 db\n");
    assert_eq!(task.rewrite("a\r"), "a\r\n10.0.0.5 db\n");
}

#[test]
fn hosts_rewrite_is_stable_on_a_settled_file() {
    let task = host_task("10.0.0.5", &["db"]);
    let once = task.rewrite("127.0.0.1 localhost\r\n 10.0.0.5   web  api\r\n");
    assert_eq!(once, "127.0.0.1 localhost\r\n10.0.0.5 web api\r\n");
    assert_eq!(task.rewrite(&once), once);
}

#[test]
fn hosts_rewrite_agrees_with_the_standard_library() {
    let files = [
        "",
        "\n",
        "\n\n",
        "127.0.0.1 localhost",
        "127.0.0.1 localhost\n",
        "10.0.0.5 a b c\n10.0.0.5 db\n",
        "\u{a0}\u{2003} 10.0.0.5 a\u{a0}b db\n",
        "x\r\n\r\n10.0.0.50 other\r",
        "10.0.0.5\n",
        "  \t10.0.0.5db   cache\x0bq cache\x0c\r\n",
        "no newline at end 10.0.0.5",
        "caf\u{e9} 10.0.0.5\n\u{3000}10.0.0.5 \u{e9}t\u{e9}\n",
        "a\rb\r\rc\n\rd",
    ];
    let specs: [(&str, &[&str]); 5] = [
        ("10.0.0.5", &["db", "cache"]),
        ("10.0.0.5", &[]),
        ("", &["x"]),
        ("10.0.0.5 a", &["b", "b"]),
        ("\u{e9}", &["\u{e9}t\u{e9}"]),
    ];
    for file in files {
        for (ip, hosts) in specs {
            assert_eq!(host_task(ip, hosts).rewrite(file), by_std(file, ip, hosts));
        }
    }
}
