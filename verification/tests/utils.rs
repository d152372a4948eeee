use std::cell::RefCell;
use std::path::Path;

use oxidizr::utils::apt;
use oxidizr::utils::files::list_files;
use oxidizr::utils::path::{backup_filename, directory, file_name, join};
use oxidizr::utils::text::{chars_of, is_whitespace, le, same, trim};
use oxidizr::utils::ubuntu::{id_command, release, release_command};
use oxidizr::utils::{vecs_eq, Command, Distribution, Output, System, Worker, WorkerError};

fn strings(items: &[&str]) -> Vec<String> {
    items.iter().map(|s| s.to_string()).collect()
}

#[test]
fn command_line_joins_program_and_arguments_with_spaces() {
    let cmd = Command::build("apt-get", &["install", "-y", "rust-coreutils"]);
    assert_eq!(cmd.command, "apt-get");
    assert_eq!(cmd.args, strings(&["install", "-y", "rust-coreutils"]));
    assert_eq!(cmd.command(), "apt-get install -y rust-coreutils");
    assert_eq!(Command::build("ls", &["-l"]).command(), "ls -l");
    assert_eq!(Command::build("true", &[]).command(), "true ");
    assert_eq!(Command::build("echo", &["", "a b"]).command(), "echo  a b");
}

#[test]
fn package_manager_command_lines() {
    assert_eq!(apt::install_package("sudo-rs").command(), "apt-get install -y sudo-rs");
    assert_eq!(apt::remove_package("sudo-rs").command(), "apt-get remove -y sudo-rs");
    assert_eq!(apt::update_package_lists().command(), "apt-get update");
    assert_eq!(apt::check_installed("sudo-rs").command(), "dpkg-query -s sudo-rs");
    assert_eq!(id_command().command(), "lsb_release -is");
    assert_eq!(release_command().command(), "lsb_release -rs");
}

#[test]
fn a_package_operation_ends_as_its_command_does() {
    let ok = Output { status: Some(0), stdout: b"x".to_vec(), stderr: Vec::new() };
    let failure = WorkerError::CommandFailed { command: "c ".to_string(), stderr: Vec::new() };
    assert_eq!(apt::finished(Ok(ok)), Ok(()));
    assert_eq!(apt::finished(Err(failure.clone())), Err(failure.clone()));
    let ok = Output { status: Some(0), stdout: Vec::new(), stderr: Vec::new() };
    assert!(apt::found(Ok(ok)));
    assert!(!apt::found(Err(failure)));
}

#[test]
fn a_command_fails_unless_it_exits_with_zero() {
    let cmd = Command::build("apt-get", &["update"]);
    let ok = Output { status: Some(0), stdout: b"done".to_vec(), stderr: Vec::new() };
    assert!(ok.success());
    let r = cmd.checked(ok).unwrap();
    assert_eq!(r.stdout, b"done".to_vec());

    let failed = Output { status: Some(100), stdout: Vec::new(), stderr: b"no network".to_vec() };
    assert!(!failed.success());
    assert_eq!(
        cmd.checked(failed).err(),
        Some(WorkerError::CommandFailed {
            command: "apt-get update".to_string(),
            stderr: b"no network".to_vec(),
        })
    );

    let killed = Output { status: None, stdout: Vec::new(), stderr: Vec::new() };
    assert!(!killed.success());
    assert!(cmd.checked(killed).is_err());
}

#[test]
fn trim_removes_white_space_at_both_ends_only() {
    assert_eq!(trim("Ubuntu\n"), "Ubuntu");
    assert_eq!(trim("  24.04 \t\r\n"), "24.04");
    assert_eq!(trim("a b"), "a b");
    assert_eq!(trim(" \n "), "");
    assert_eq!(trim(""), "");
    assert_eq!(trim("\u{a0}x\u{3000}"), "x");
    assert_eq!(trim("\u{200b}x"), "\u{200b}x");
}

#[test]
fn white_space_is_what_std_takes_for_it() {
    for n in 0u32..0x3100 {
        if let Some(c) = char::from_u32(n) {
            assert_eq!(is_whitespace(c), c.is_whitespace(), "code point {:#x}", n);
        }
    }
    assert!(!is_whitespace('\u{feff}'));
}

#[test]
fn dictionary_order_of_releases() {
    assert!(le("24.04", "24.04"));
    assert!(le("24.04", "24.10"));
    assert!(le("24.10", "25.04"));
    assert!(!le("24.04", "23.10"));
    assert!(le("", "24.04"));
    assert!(!le("24.04", ""));
    assert!(le("24", "24.04"));
    assert!(!le("24.04", "24"));
    assert!(le("9.10", "24.04") == ("9.10" <= "24.04"));
    assert!(!le("9.10", "24.04"));
    assert!(le("é", "z") == ("é" <= "z"));
}

#[test]
fn texts_are_compared_and_split_by_character() {
    assert!(same("Ubuntu", "Ubuntu"));
    assert!(!same("Ubuntu", "ubuntu"));
    assert!(!same("Ubuntu", "Ubuntu "));
    assert_eq!(chars_of("a/é"), vec!['a', '/', 'é']);
    assert_eq!(chars_of(""), Vec::<char>::new());
}

#[test]
fn file_name_is_the_final_segment() {
    assert_eq!(file_name("/usr/lib/cargo/bin/coreutils/date"), Some("date".to_string()));
    assert_eq!(file_name("date"), Some("date".to_string()));
    assert_eq!(file_name(".hidden"), Some(".hidden".to_string()));
    assert_eq!(file_name("/hosts"), Some("hosts".to_string()));
    assert_eq!(file_name("a/..."), Some("...".to_string()));
    assert_eq!(file_name("./date"), Some("date".to_string()));
    assert_eq!(file_name(""), None);
    assert_eq!(file_name("/"), None);
    assert_eq!(file_name("//"), None);
    assert_eq!(file_name(".."), None);
    assert_eq!(file_name("."), None);
    assert_eq!(file_name("./"), None);
    assert_eq!(file_name("/."), None);
    assert_eq!(file_name("/usr/.."), None);
    assert_eq!(file_name("/usr/../"), None);
}

#[test]
fn separators_and_dot_segments_at_the_end_are_left_aside() {
    assert_eq!(file_name("/usr/bin/"), Some("bin".to_string()));
    assert_eq!(file_name("/usr/bin//"), Some("bin".to_string()));
    assert_eq!(file_name("/usr/."), Some("usr".to_string()));
    assert_eq!(file_name("/usr/bin/./"), Some("bin".to_string()));
    assert_eq!(file_name("/usr/bin/.//./"), Some("bin".to_string()));
    assert_eq!(directory("/usr/bin/"), "/usr");
    assert_eq!(directory("/usr/bin"), "/usr");
    assert_eq!(directory("/usr//bin"), "/usr");
    assert_eq!(directory("/usr/./bin"), "/usr");
    assert_eq!(directory("/usr"), "/");
    assert_eq!(directory("//usr"), "/");
    assert_eq!(directory("/./usr"), "/");
    assert_eq!(directory("usr"), "");
    assert_eq!(directory("./usr"), ".");
    assert_eq!(directory("a/b/c/"), "a/b");
    assert_eq!(backup_filename("/usr/bin/"), "/usr/.bin.oxidizr.bak");
    assert_eq!(backup_filename("/usr/bin/."), "/usr/.bin.oxidizr.bak");
    assert_eq!(backup_filename("/usr//bin"), "/usr/.bin.oxidizr.bak");
    assert_eq!(backup_filename("/usr/bin/date/"), backup_filename("/usr/bin/date"));
    assert_eq!(backup_filename("./date"), "./.date.oxidizr.bak");
}

/// The backup of `path` as `std::path` makes it, if `path` has a file name.
fn backup_by_std(path: &str) -> Option<String> {
    let file = Path::new(path);
    let name = file.file_name()?.to_str()?.to_string();
    let mut backup = file.parent().unwrap_or(Path::new(".")).to_path_buf();
    backup.push(format!(".{}.oxidizr.bak", name));
    Some(backup.to_str()?.to_string())
}

#[test]
fn paths_are_read_as_std_reads_them() {
    let alphabet = ['/', '.', 'a', 'b'];
    let mut paths = vec![String::new()];
    let mut from = 0;
    for _ in 0..7 {
        let upto = paths.len();
        for i in from..upto {
            for c in alphabet {
                let mut longer = paths[i].clone();
                longer.push(c);
                paths.push(longer);
            }
        }
        from = upto;
    }
    assert_eq!(paths.len(), 21845);
    for path in paths.iter() {
        let std_name = Path::new(path).file_name().map(|n| n.to_str().unwrap().to_string());
        assert_eq!(file_name(path), std_name, "file name of {:?}", path);
        if let Some(expected) = backup_by_std(path) {
            assert_eq!(backup_filename(path), expected, "backup of {:?}", path);
            let parent = Path::new(path).parent().unwrap().to_str().unwrap().to_string();
            assert_eq!(directory(path), parent, "directory of {:?}", path);
            assert_ne!(backup_filename(path), *path);
        }
    }
}

#[test]
fn join_puts_one_separator_between_directory_and_name() {
    assert_eq!(join("/usr/bin", "date"), "/usr/bin/date");
    assert_eq!(join("/usr/bin/", "date"), "/usr/bin/date");
    assert_eq!(join("/", "date"), "/date");
    assert_eq!(join("", "date"), "date");
    assert_eq!(join("bin", "date"), "bin/date");
}

#[test]
fn backup_names_keep_the_directory_and_hide_the_file() {
    assert_eq!(backup_filename("/usr/bin/sudo"), "/usr/bin/.sudo.oxidizr.bak");
    assert_eq!(backup_filename("/sudo"), "/.sudo.oxidizr.bak");
    assert_eq!(backup_filename("a/b/c"), "a/b/.c.oxidizr.bak");
    assert_eq!(
        backup_filename("/usr/bin/.sudo.oxidizr.bak"),
        "/usr/bin/..sudo.oxidizr.bak.oxidizr.bak"
    );
    assert_ne!(backup_filename("/usr/bin/su"), backup_filename("/usr/bin/sudo"));
}

#[test]
fn listing_joins_the_directory_with_each_entry() {
    let names = strings(&["find", "xargs"]);
    assert_eq!(
        list_files("/usr/lib/cargo/bin/findutils", true, &names),
        Ok(strings(&["/usr/lib/cargo/bin/findutils/find", "/usr/lib/cargo/bin/findutils/xargs"]))
    );
    assert_eq!(list_files("/tmp/", true, &strings(&["a"])), Ok(strings(&["/tmp/a"])));
    assert_eq!(list_files("/tmp", true, &Vec::new()), Ok(Vec::new()));
    assert_eq!(
        list_files("/nonesuch", false, &names),
        Err(WorkerError::NotADirectory { path: "/nonesuch".to_string() })
    );
}

#[test]
fn release_is_the_trimmed_text_of_the_output() {
    assert_eq!(release(b"24.04\n".to_vec()), Ok("24.04".to_string()));
    assert_eq!(release(b"".to_vec()), Ok(String::new()));
    assert_eq!(release(vec![0x32, 0x34, 0xff]), Err(WorkerError::InvalidUtf8));
    assert_eq!(release("é\n".as_bytes().to_vec()), Ok("é".to_string()));
}

#[test]
fn distribution_is_read_from_two_outputs() {
    let d = Distribution::parse(b"Ubuntu\n".to_vec(), b"24.04\n".to_vec()).unwrap();
    assert_eq!(d, Distribution { id: "Ubuntu".to_string(), release: "24.04".to_string() });
    assert!(d.is_ubuntu());
    assert_eq!(
        Distribution::parse(vec![0xc3, 0x28], b"24.04\n".to_vec()),
        Err(WorkerError::InvalidUtf8)
    );
    assert_eq!(
        Distribution::parse(b"Ubuntu\n".to_vec(), vec![0x80]),
        Err(WorkerError::InvalidUtf8)
    );
}

#[test]
fn only_ubuntu_is_supported_unless_the_check_is_bypassed() {
    let ubuntu = Distribution { id: "Ubuntu".to_string(), release: "24.04".to_string() };
    let debian = Distribution { id: "Debian".to_string(), release: "12".to_string() };
    assert!(ubuntu.is_ubuntu());
    assert!(!debian.is_ubuntu());
    assert_eq!(ubuntu.check_supported(false), Ok(()));
    assert_eq!(ubuntu.check_supported(true), Ok(()));
    assert_eq!(debian.check_supported(true), Ok(()));
    assert_eq!(
        debian.check_supported(false),
        Err(WorkerError::UnsupportedDistribution { id: "Debian".to_string() })
    );
}

#[test]
fn vecs_eq_ignores_order() {
    assert!(vecs_eq(vec![1, 2, 3], vec![3, 1, 2]));
    assert!(!vecs_eq(vec![1, 2, 3], vec![1, 2]));
    assert!(!vecs_eq(vec![1, 2, 3], vec![1, 2, 4]));
    assert!(vecs_eq(Vec::<u8>::new(), Vec::new()));
    assert!(vecs_eq(strings(&["a", "b"]), strings(&["b", "a"])));
    assert!(!vecs_eq(strings(&["a", "b"]), strings(&["b", "c"])));
    assert!(vecs_eq(vec![1, 1, 2], vec![1, 2, 2]));
    assert!(!vecs_eq(vec![1, 1, 1], vec![1, 2, 1]));
}

/// A host that answers commands from a table and records them.
struct CommandHost {
    commands: RefCell<Vec<String>>,
    answers: Vec<(String, Result<Vec<u8>, i32>)>,
}

impl CommandHost {
    fn new(answers: Vec<(&str, Result<&[u8], i32>)>) -> Self {
        Self {
            commands: RefCell::new(Vec::new()),
            answers: answers
                .into_iter()
                .map(|(line, answer)| (line.to_string(), answer.map(|out| out.to_vec())))
                .collect(),
        }
    }

    fn commands(&self) -> Vec<String> {
        self.commands.borrow().clone()
    }
}

impl Worker for CommandHost {
    fn run(&self, cmd: &Command) -> Result<Output, WorkerError> {
        let line = cmd.command();
        self.commands.borrow_mut().push(line.clone());
        let answer = self.answers.iter().find(|(l, _)| *l == line).map(|(_, a)| a.clone());
        let output = match answer {
            Some(Ok(stdout)) => Output { status: Some(0), stdout, stderr: Vec::new() },
            Some(Err(code)) => {
                Output { status: Some(code), stdout: Vec::new(), stderr: b"failed".to_vec() }
            }
            None => Output { status: Some(0), stdout: Vec::new(), stderr: Vec::new() },
        };
        cmd.checked(output)
    }

    fn list_files(&self, directory: &str) -> Result<Vec<String>, WorkerError> {
        list_files(directory, false, &Vec::new())
    }

    fn which(&self, binary_name: &str) -> Result<String, WorkerError> {
        Err(WorkerError::Other { message: format!("{} not found", binary_name) })
    }

    fn replace_file_with_symlink(&self, _source: &str, _target: &str) -> Result<(), WorkerError> {
        Ok(())
    }

    fn backup_file(&self, _file: &str) -> Result<(), WorkerError> {
        Ok(())
    }

    fn restore_file(&self, _file: &str) -> Result<(), WorkerError> {
        Ok(())
    }

    fn create_symlink(&self, _source: &str, _target: &str) -> Result<(), WorkerError> {
        Ok(())
    }
}

#[test]
fn a_host_that_only_runs_commands_provides_the_package_operations() {
    let host = CommandHost::new(vec![
        ("lsb_release -is", Ok(b"Ubuntu\n")),
        ("lsb_release -rs", Ok(b"24.10\n")),
        ("dpkg-query -s absent", Err(1)),
        ("apt-get remove -y absent", Err(100)),
    ]);
    assert_eq!(
        host.distribution(),
        Ok(Distribution { id: "Ubuntu".to_string(), release: "24.10".to_string() })
    );
    assert_eq!(host.install_package("rust-coreutils"), Ok(()));
    assert_eq!(host.update_package_lists(), Ok(()));
    assert_eq!(host.check_installed("rust-coreutils"), Ok(true));
    assert_eq!(host.check_installed("absent"), Ok(false));
    assert_eq!(
        host.remove_package("absent"),
        Err(WorkerError::CommandFailed {
            command: "apt-get remove -y absent".to_string(),
            stderr: b"failed".to_vec(),
        })
    );
    assert_eq!(
        host.commands(),
        strings(&[
            "lsb_release -is",
            "lsb_release -rs",
            "apt-get install -y rust-coreutils",
            "apt-get update",
            "dpkg-query -s rust-coreutils",
            "dpkg-query -s absent",
            "apt-get remove -y absent",
        ])
    );
}

#[test]
fn the_system_reads_the_distribution_once_and_passes_requests_on() {
    let host = CommandHost::new(vec![
        ("lsb_release -is", Ok(b"Ubuntu\n")),
        ("lsb_release -rs", Ok(b"25.04\n")),
    ]);
    let mut system = System::new(&host).unwrap();
    assert_eq!(system.distribution().release, "25.04");
    assert_eq!(system.distribution().id, "Ubuntu");
    assert_eq!(host.commands().len(), 2);

    assert_eq!(system.install_package("p"), Ok(()));
    assert_eq!(system.remove_package("p"), Ok(()));
    assert_eq!(system.update_package_lists(), Ok(()));
    assert_eq!(system.check_installed("p"), Ok(true));
    assert!(system.run(&Command::build("true", &[])).is_ok());
    assert_eq!(
        system.list_files("/nonesuch"),
        Err(WorkerError::NotADirectory { path: "/nonesuch".to_string() })
    );
    assert!(system.which("sudo").is_err());
    assert_eq!(system.replace_file_with_symlink("/a", "/b"), Ok(()));
    assert_eq!(system.backup_file("/b"), Ok(()));
    assert_eq!(system.restore_file("/b"), Ok(()));
    assert_eq!(system.create_symlink("/a", "/b"), Ok(()));
    assert_eq!(system.distribution().release, "25.04");
    assert_eq!(
        host.commands()[2..],
        strings(&[
            "apt-get install -y p",
            "apt-get remove -y p",
            "apt-get update",
            "dpkg-query -s p",
            "true ",
        ])
    );
}

#[test]
fn there_is_no_system_without_a_distribution() {
    let host = CommandHost::new(vec![("lsb_release -is", Err(1))]);
    assert!(System::new(&host).is_err());
    let host = CommandHost::new(vec![
        ("lsb_release -is", Ok(b"Ubuntu\n")),
        ("lsb_release -rs", Ok(&[0xff, 0xfe])),
    ]);
    assert_eq!(System::new(&host).err(), Some(WorkerError::InvalidUtf8));
}

#[test]
fn failures_say_what_they_concern() {
    let failed = WorkerError::CommandFailed {
        command: "apt-get install -y sudo-rs".to_string(),
        stderr: b"E: Unable to locate package\n".to_vec(),
    };
    assert_eq!(
        failed.message(),
        "Failed to run command 'apt-get install -y sudo-rs': E: Unable to locate package\n"
    );
    let garbled = WorkerError::CommandFailed {
        command: "x ".to_string(),
        stderr: vec![b'a', 0xff, b'b'],
    };
    assert_eq!(garbled.message(), "Failed to run command 'x ': a\u{fffd}b");
    assert_eq!(
        WorkerError::InvalidUtf8.message(),
        "invalid utf-8 sequence in command output"
    );
    assert_eq!(
        WorkerError::NotADirectory { path: "/nonesuch".to_string() }.message(),
        "/nonesuch is not a directory"
    );
    assert_eq!(
        WorkerError::NoFileName { path: "/usr/..".to_string() }.message(),
        "/usr/.. has no file name"
    );
    assert_eq!(
        WorkerError::UnsupportedDistribution { id: "Debian".to_string() }.message(),
        "This program only supports Ubuntu"
    );
    assert_eq!(
        WorkerError::Other { message: "disk full".to_string() }.message(),
        "disk full"
    );
}

#[test]
fn a_system_can_be_given_its_distribution() {
    let host = CommandHost::new(Vec::new());
    let debian = Distribution { id: "Debian".to_string(), release: "12".to_string() };
    let mut system = System::begin(&host, debian.clone());
    assert_eq!(*system.distribution(), debian);
    assert_eq!(host.commands().len(), 0);
    assert_eq!(system.update_package_lists(), Ok(()));
    assert_eq!(host.commands(), strings(&["apt-get update"]));
    assert_eq!(*system.distribution(), debian);
}
