use std::cell::RefCell;
use std::collections::BTreeMap;

use oxidizr::experiments::{
    all_experiments, disable_experiments, enable_experiments, selected_experiments, Experiment,
};
use oxidizr::utils::files::{
    backup_file, create_symlink, list_files, next, replace_file_with_symlink, restore_file,
    FileKind, FileOp, Next,
};
use oxidizr::utils::{backup_filename, Command, Output, System, Worker, WorkerError};

#[derive(Debug, Clone, PartialEq)]
enum Node {
    File { content: Vec<u8>, mode: u32 },
    Symlink { to: String },
}

type Files = BTreeMap<String, Node>;

/// A host whose files and packages are kept in memory. It runs the commands
/// of the package manager on its own list of packages, and takes the steps
/// planned for a file operation on its own files.
struct MemoryHost {
    release: String,
    files: RefCell<Files>,
    installed: RefCell<Vec<String>>,
    commands: RefCell<Vec<String>>,
    /// Steps that fail when they are taken
    failing: RefCell<Vec<FileOp>>,
}

impl MemoryHost {
    fn new(release: &str) -> Self {
        let mut files = Files::new();
        let file = |content: &str, mode: u32| Node::File {
            content: content.as_bytes().to_vec(),
            mode,
        };
        for (path, node) in [
            ("/usr/bin/date", file("gnu date", 0o755)),
            ("/usr/bin/sort", file("gnu sort", 0o755)),
            ("/usr/bin/find", file("gnu find", 0o755)),
            ("/usr/bin/su", file("shadow su", 0o4755)),
            ("/usr/bin/sudo", file("todd sudo", 0o4755)),
            ("/usr/sbin/visudo", file("todd visudo", 0o755)),
            ("/usr/bin/coreutils", file("multi-call", 0o755)),
            ("/usr/lib/cargo/bin/coreutils/date", file("rust date", 0o755)),
            ("/usr/lib/cargo/bin/coreutils/sort", file("rust sort", 0o755)),
            ("/usr/lib/cargo/bin/coreutils/uptime", file("rust uptime", 0o755)),
            ("/usr/bin/diff", file("gnu diff", 0o755)),
            ("/usr/lib/cargo/bin/diffutils/diff", file("rust diff", 0o755)),
            ("/usr/lib/cargo/bin/diffutils/diffutils", file("rust diffutils", 0o755)),
            ("/usr/lib/cargo/bin/findutils/find", file("rust find", 0o755)),
            ("/usr/lib/cargo/bin/su", file("rust su", 0o4755)),
            ("/usr/lib/cargo/bin/sudo", file("rust sudo", 0o4755)),
            ("/usr/lib/cargo/bin/visudo", file("rust visudo", 0o755)),
        ] {
            files.insert(path.to_string(), node);
        }
        Self {
            release: release.to_string(),
            files: RefCell::new(files),
            installed: RefCell::new(Vec::new()),
            commands: RefCell::new(Vec::new()),
            failing: RefCell::new(Vec::new()),
        }
    }

    fn snapshot(&self) -> Files {
        self.files.borrow().clone()
    }

    fn node(&self, path: &str) -> Option<Node> {
        self.files.borrow().get(path).cloned()
    }

    fn kind_of(&self, path: &str) -> FileKind {
        match self.files.borrow().get(path) {
            None => FileKind::Missing,
            Some(Node::Symlink { .. }) => FileKind::Symlink,
            Some(Node::File { .. }) => FileKind::File,
        }
    }

    fn perform(&self, op: &FileOp) -> Result<(), WorkerError> {
        let mut files = self.files.borrow_mut();
        let missing = |path: &String| WorkerError::Other { message: format!("no {}", path) };
        if self.failing.borrow().contains(op) {
            return Err(WorkerError::Other { message: format!("cannot {:?}", op) });
        }
        match op {
            FileOp::Copy { from, to } => match files.get(from).cloned() {
                Some(Node::File { content, mode }) => {
                    files.insert(to.clone(), Node::File { content, mode: mode & 0o777 });
                }
                _ => return Err(missing(from)),
            },
            FileOp::CopyPermissions { from, to } => {
                let mode = match files.get(from) {
                    Some(Node::File { mode, .. }) => *mode,
                    _ => return Err(missing(from)),
                };
                match files.get_mut(to) {
                    Some(Node::File { mode: m, .. }) => *m = mode,
                    _ => return Err(missing(to)),
                }
            }
            FileOp::Remove { path } => {
                files.remove(path).ok_or(missing(path))?;
            }
            FileOp::Symlink { source, target } => {
                if files.contains_key(target) {
                    return Err(WorkerError::Other { message: format!("{} exists", target) });
                }
                files.insert(target.clone(), Node::Symlink { to: source.clone() });
            }
            FileOp::Rename { from, to } => {
                let node = files.remove(from).ok_or(missing(from))?;
                files.insert(to.clone(), node);
            }
        }
        Ok(())
    }

    fn take(&self, plan: Vec<FileOp>) -> Result<(), WorkerError> {
        let mut taken = 0;
        let mut outcome = Ok(());
        loop {
            match next(&plan, taken, outcome) {
                Next::Step(i) => {
                    outcome = self.perform(&plan[i]);
                    taken = i + 1;
                }
                Next::Done(r) => return r,
            }
        }
    }
}

impl Worker for MemoryHost {
    fn run(&self, cmd: &Command) -> Result<Output, WorkerError> {
        self.commands.borrow_mut().push(cmd.command());
        let args: Vec<&str> = cmd.args.iter().map(|a| a.as_str()).collect();
        let mut installed = self.installed.borrow_mut();
        let (status, stdout) = match (cmd.command.as_str(), args.as_slice()) {
            ("lsb_release", ["-is"]) => (0, "Ubuntu\n".to_string()),
            ("lsb_release", ["-rs"]) => (0, format!("{}\n", self.release)),
            ("apt-get", ["update"]) => (0, String::new()),
            ("apt-get", ["install", "-y", package]) => {
                if !installed.contains(&package.to_string()) {
                    installed.push(package.to_string());
                }
                (0, String::new())
            }
            ("apt-get", ["remove", "-y", package]) => {
                installed.retain(|p| p != package);
                (0, String::new())
            }
            ("dpkg-query", ["-s", package]) => {
                (if installed.contains(&package.to_string()) { 0 } else { 1 }, String::new())
            }
            _ => (127, String::new()),
        };
        cmd.checked(Output { status: Some(status), stdout: stdout.into_bytes(), stderr: Vec::new() })
    }

    fn list_files(&self, directory: &str) -> Result<Vec<String>, WorkerError> {
        let prefix = format!("{}/", directory);
        let names: Vec<String> = self
            .files
            .borrow()
            .keys()
            .filter_map(|path| path.strip_prefix(&prefix))
            .filter(|name| !name.contains('/'))
            .map(|name| name.to_string())
            .collect();
        list_files(directory, !names.is_empty(), &names)
    }

    fn which(&self, binary_name: &str) -> Result<String, WorkerError> {
        for directory in ["/usr/local/bin", "/usr/sbin", "/usr/bin"] {
            let path = format!("{}/{}", directory, binary_name);
            if self.files.borrow().contains_key(&path) {
                return Ok(path);
            }
        }
        Err(WorkerError::Other { message: format!("cannot find {}", binary_name) })
    }

    fn replace_file_with_symlink(&self, source: &str, target: &str) -> Result<(), WorkerError> {
        self.take(replace_file_with_symlink(source, target, self.kind_of(target)))
    }

    fn backup_file(&self, file: &str) -> Result<(), WorkerError> {
        self.take(backup_file(file))
    }

    fn restore_file(&self, file: &str) -> Result<(), WorkerError> {
        let backup = self.kind_of(&backup_filename(file));
        self.take(restore_file(file, backup, self.kind_of(file)))
    }

    fn create_symlink(&self, source: &str, target: &str) -> Result<(), WorkerError> {
        self.take(create_symlink(source, target, self.kind_of(target)))
    }
}

fn symlink(to: &str) -> Option<Node> {
    Some(Node::Symlink { to: to.to_string() })
}

fn file(content: &str, mode: u32) -> Option<Node> {
    Some(Node::File { content: content.as_bytes().to_vec(), mode })
}

#[test]
fn enabling_links_the_utilities_and_keeps_what_was_there() {
    let host = MemoryHost::new("24.04");
    let mut system = System::new(&host).unwrap();
    let selected = selected_experiments(false, Vec::new());
    assert_eq!(enable_experiments(&mut system, &selected, false), Ok(()));

    assert_eq!(host.node("/usr/bin/date"), symlink("/usr/bin/coreutils"));
    assert_eq!(host.node("/usr/bin/sort"), symlink("/usr/bin/coreutils"));
    assert_eq!(host.node("/usr/bin/uptime"), symlink("/usr/bin/coreutils"));
    assert_eq!(host.node("/usr/bin/.date.oxidizr.bak"), file("gnu date", 0o755));
    assert_eq!(host.node("/usr/bin/.uptime.oxidizr.bak"), None);
    assert_eq!(host.node("/usr/bin/su"), symlink("/usr/lib/cargo/bin/su"));
    assert_eq!(host.node("/usr/bin/sudo"), symlink("/usr/lib/cargo/bin/sudo"));
    assert_eq!(host.node("/usr/sbin/visudo"), symlink("/usr/lib/cargo/bin/visudo"));
    assert_eq!(host.node("/usr/bin/.sudo.oxidizr.bak"), file("todd sudo", 0o4755));
    assert_eq!(host.node("/usr/sbin/.visudo.oxidizr.bak"), file("todd visudo", 0o755));
    assert_eq!(host.node("/usr/bin/find"), file("gnu find", 0o755));
    assert_eq!(
        host.installed.borrow().clone(),
        vec!["rust-coreutils".to_string(), "sudo-rs".to_string()]
    );
}

#[test]
fn enabling_twice_is_enabling_once() {
    let host = MemoryHost::new("24.04");
    let mut system = System::new(&host).unwrap();
    let selected = all_experiments();
    assert_eq!(enable_experiments(&mut system, &selected, true), Ok(()));
    let once = host.snapshot();
    assert_eq!(host.node("/usr/bin/diff"), symlink("/usr/lib/cargo/bin/diffutils/diffutils"));
    assert_eq!(
        host.node("/usr/bin/diffutils"),
        symlink("/usr/lib/cargo/bin/diffutils/diffutils")
    );
    assert_eq!(host.node("/usr/bin/find"), symlink("/usr/lib/cargo/bin/findutils/find"));
    assert_eq!(enable_experiments(&mut system, &selected, true), Ok(()));
    assert_eq!(host.snapshot(), once);
}

#[test]
fn disabling_undoes_enabling() {
    let host = MemoryHost::new("24.10");
    let before = host.snapshot();
    let mut system = System::new(&host).unwrap();
    let selected =
        selected_experiments(false, vec!["coreutils".to_string(), "sudo-rs".to_string()]);
    assert_eq!(enable_experiments(&mut system, &selected, false), Ok(()));
    assert_ne!(host.snapshot(), before);
    assert_eq!(disable_experiments(&mut system, &selected), Ok(()));

    let mut expected = before.clone();
    expected.insert(
        "/usr/bin/uptime".to_string(),
        Node::Symlink { to: "/usr/bin/coreutils".to_string() },
    );
    assert_eq!(host.snapshot(), expected);
    assert_eq!(host.node("/usr/bin/sudo"), file("todd sudo", 0o4755));
    assert_eq!(host.installed.borrow().len(), 0);
    let commands = host.commands.borrow().clone();
    assert_eq!(commands.last().map(|c| c.as_str()), Some("apt-get remove -y sudo-rs"));
}

#[test]
fn disabling_first_changes_nothing() {
    let host = MemoryHost::new("24.04");
    let before = host.snapshot();
    let mut system = System::new(&host).unwrap();
    let selected = all_experiments();
    assert_eq!(disable_experiments(&mut system, &selected), Ok(()));
    assert_eq!(host.snapshot(), before);
    assert_eq!(
        host.commands.borrow()[2..].to_vec(),
        vec![
            "dpkg-query -s rust-coreutils".to_string(),
            "dpkg-query -s rust-diffutils".to_string(),
            "dpkg-query -s rust-findutils".to_string(),
            "dpkg-query -s sudo-rs".to_string(),
        ]
    );
}

#[test]
fn disabling_twice_is_disabling_once() {
    let host = MemoryHost::new("24.04");
    let mut system = System::new(&host).unwrap();
    let findutils: Vec<Experiment> =
        selected_experiments(false, vec!["findutils".to_string()]);
    let before = host.snapshot();
    assert_eq!(enable_experiments(&mut system, &findutils, false), Ok(()));
    assert_eq!(host.node("/usr/bin/find"), symlink("/usr/lib/cargo/bin/findutils/find"));
    assert_eq!(disable_experiments(&mut system, &findutils), Ok(()));
    assert_eq!(host.snapshot(), before);
    assert_eq!(disable_experiments(&mut system, &findutils), Ok(()));
    assert_eq!(host.snapshot(), before);
}

#[test]
fn an_unsupported_release_is_left_alone() {
    let host = MemoryHost::new("22.04");
    let before = host.snapshot();
    let mut system = System::new(&host).unwrap();
    assert_eq!(system.distribution().release, "22.04");
    let selected = all_experiments();
    assert_eq!(enable_experiments(&mut system, &selected, false), Ok(()));
    assert_eq!(host.snapshot(), before);
    assert_eq!(host.installed.borrow().len(), 0);
    assert_eq!(host.commands.borrow()[2..].to_vec(), vec!["apt-get update".to_string()]);
}

#[test]
fn a_missing_package_directory_fails_the_experiment() {
    let host = MemoryHost::new("24.10");
    host.files.borrow_mut().retain(|path, _| !path.starts_with("/usr/lib/cargo/bin/diffutils/"));
    let mut system = System::new(&host).unwrap();
    let diffutils = selected_experiments(false, vec!["diffutils".to_string()]);
    assert_eq!(
        enable_experiments(&mut system, &diffutils, false),
        Err(WorkerError::NotADirectory { path: "/usr/lib/cargo/bin/diffutils".to_string() })
    );
}

#[test]
fn a_failed_step_ends_the_plan_with_its_failure() {
    let plan = replace_file_with_symlink("/usr/bin/coreutils", "/usr/bin/date", FileKind::File);
    let failure = WorkerError::Other { message: "no space".to_string() };
    assert_eq!(plan.len(), 4);
    assert_eq!(next(&plan, 0, Ok(())), Next::Step(0));
    assert_eq!(next(&plan, 1, Ok(())), Next::Step(1));
    assert_eq!(next(&plan, 3, Ok(())), Next::Step(3));
    assert_eq!(next(&plan, 4, Ok(())), Next::Done(Ok(())));
    assert_eq!(next(&plan, 1, Err(failure.clone())), Next::Done(Err(failure.clone())));
    assert_eq!(next(&plan, 4, Err(failure.clone())), Next::Done(Err(failure.clone())));
    assert_eq!(next(&Vec::new(), 0, Ok(())), Next::Done(Ok(())));
    assert_eq!(next(&Vec::new(), 0, Err(failure.clone())), Next::Done(Err(failure)));
}

#[test]
fn a_failed_backup_leaves_the_file_as_it_was() {
    for failing in [
        FileOp::Copy {
            from: "/usr/bin/sudo".to_string(),
            to: "/usr/bin/.sudo.oxidizr.bak".to_string(),
        },
        FileOp::CopyPermissions {
            from: "/usr/bin/sudo".to_string(),
            to: "/usr/bin/.sudo.oxidizr.bak".to_string(),
        },
    ] {
        let host = MemoryHost::new("24.04");
        host.failing.borrow_mut().push(failing.clone());
        let r = host.replace_file_with_symlink("/usr/lib/cargo/bin/sudo", "/usr/bin/sudo");
        assert_eq!(r, Err(WorkerError::Other { message: format!("cannot {:?}", failing) }));
        assert_eq!(host.node("/usr/bin/sudo"), file("todd sudo", 0o4755));
    }
}

#[test]
fn what_was_done_before_a_failure_is_not_taken_back() {
    let host = MemoryHost::new("24.04");
    host.failing.borrow_mut().push(FileOp::Copy {
        from: "/usr/bin/sort".to_string(),
        to: "/usr/bin/.sort.oxidizr.bak".to_string(),
    });
    let mut system = System::new(&host).unwrap();
    let coreutils = selected_experiments(false, vec!["coreutils".to_string()]);
    assert!(enable_experiments(&mut system, &coreutils, false).is_err());
    assert_eq!(host.node("/usr/bin/date"), symlink("/usr/bin/coreutils"));
    assert_eq!(host.node("/usr/bin/.date.oxidizr.bak"), file("gnu date", 0o755));
    assert_eq!(host.node("/usr/bin/sort"), file("gnu sort", 0o755));
    assert_eq!(host.node("/usr/bin/uptime"), None);
}
