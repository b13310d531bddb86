use drt::deploy::{
    commit, contents, deploy, deployment_name, is_deployed, live_path, remove, source_for, Act,
    Report, MAX_FILES,
};
use drt::drt_root::Root;
use drt::tree::{dir, Node};
use std::collections::BTreeMap;

fn root() -> Root {
    Root { dir: "/r".to_string() }
}

/// A disk in memory, on which plans are carried out.
#[derive(Default)]
struct Disk {
    files: BTreeMap<String, Vec<u8>>,
}

impl Disk {
    fn seeded(extra: &[(&str, &str)]) -> Disk {
        let mut d = Disk::default();
        d.put("/r/dlua/app.dlua", "print('hi')\n");
        for (path, text) in extra {
            d.put(path, text);
        }
        d
    }

    fn put(&mut self, path: &str, text: &str) {
        self.files.insert(path.to_string(), text.as_bytes().to_vec());
    }

    fn text(&self, path: &str) -> Option<String> {
        self.files
            .get(path)
            .map(|b| String::from_utf8(b.clone()).unwrap())
    }

    fn at(&self, path: &str) -> Option<Node> {
        let head = format!("{}/", path.trim_end_matches('/'));
        let mut all: Vec<(String, Node)> = Vec::new();
        let mut names: Vec<String> = Vec::new();
        for (p, bytes) in &self.files {
            let Some(rest) = p.strip_prefix(&head) else {
                continue;
            };
            match rest.split_once('/') {
                None => all.push((rest.to_string(), Node::File(bytes.clone()))),
                Some((sub, _)) => {
                    if !names.contains(&sub.to_string()) {
                        names.push(sub.to_string());
                        all.push((sub.to_string(), self.at(&format!("{head}{sub}")).unwrap()));
                    }
                }
            }
        }
        if all.is_empty() {
            None
        } else {
            Some(dir(all))
        }
    }

    fn perform(&mut self, acts: &[Act]) {
        for act in acts {
            match act {
                Act::Clear(path) => {
                    let head = format!("{path}/");
                    self.files.retain(|p, _| !p.starts_with(&head));
                }
                Act::MakeDir(_) => {}
                Act::Write(path, bytes) => {
                    self.files.insert(path.clone(), bytes.clone());
                }
            }
        }
    }

    fn deploy(&mut self, name: &str, dlua: Option<&str>) -> Result<Report, String> {
        let source = source_for(&root(), dlua);
        let plan = deploy(&root(), name, &source, self.at(source.path()).as_ref());
        self.perform(&plan.acts);
        plan.outcome
    }

    fn commit(&mut self, name: &str) -> Result<Report, String> {
        let plan = commit(&root(), name, self.at(&live_path(&root(), name)).as_ref());
        self.perform(&plan.acts);
        plan.outcome
    }
}

#[test]
fn a_deploy_copies_and_an_edit_does_not_reach_live_until_the_next_one() {
    let mut disk = Disk::seeded(&[]);
    assert_eq!(source_for(&root(), Some("dlua/")).describe(), "dlua_dir");

    let report = disk.deploy("my_drt_project", Some("dlua/")).unwrap();
    assert_eq!(report.files, 1);
    let live = format!("{}/app.dlua", live_path(&root(), "my_drt_project"));
    assert_eq!(disk.text(&live).unwrap(), "print('hi')\n");

    disk.put("/r/dlua/app.dlua", "print('edited')\n");
    assert_eq!(
        disk.text(&live).unwrap(),
        "print('hi')\n",
        "an edit reaches live/ only through a deploy"
    );

    disk.deploy("my_drt_project", Some("dlua/")).unwrap();
    assert_eq!(disk.text(&live).unwrap(), "print('edited')\n");
}

#[test]
fn a_deploy_replaces_rather_than_merging() {
    let mut disk = Disk::seeded(&[("/r/dlua/old.dlua", "print('old')\n")]);
    disk.deploy("p", Some("dlua/")).unwrap();
    let old = format!("{}/old.dlua", live_path(&root(), "p"));
    assert!(disk.text(&old).is_some());

    disk.files.remove("/r/dlua/old.dlua");
    disk.deploy("p", Some("dlua/")).unwrap();
    assert!(
        disk.text(&old).is_none(),
        "a stale file in live/ would be code the source no longer contains"
    );
}

#[test]
fn without_a_dlua_dir_a_deploy_reads_init() {
    let mut disk = Disk::seeded(&[("/r/.drt_root/init/app.dlua", "print('delivered')\n")]);
    assert_eq!(source_for(&root(), None).describe(), "init/");

    disk.deploy("p", None).unwrap();
    assert_eq!(
        disk.text(&format!("{}/app.dlua", live_path(&root(), "p"))).unwrap(),
        "print('delivered')\n"
    );
}

#[test]
fn deploying_from_nothing_is_a_named_failure() {
    let mut disk = Disk::default();
    let e = disk.deploy("p", None).unwrap_err();
    assert!(e.contains("nothing to deploy"), "{e}");
    assert!(e.contains("init/"), "it names which directory: {e}");
}

#[test]
fn rm_removes_the_deployment_and_is_idempotent() {
    let mut disk = Disk::seeded(&[]);
    disk.deploy("p", Some("dlua/")).unwrap();
    let live = live_path(&root(), "p");
    assert!(is_deployed(disk.at(&live).as_ref()));

    let gone = remove(&root(), "p");
    disk.perform(&[gone]);
    assert!(!is_deployed(disk.at(&live).as_ref()));
    let again = remove(&root(), "p");
    disk.perform(&[again]);
    assert!(!is_deployed(disk.at(&live).as_ref()));
}

#[test]
fn commit_captures_live_and_not_the_editor_s_buffer() {
    let mut disk = Disk::seeded(&[]);
    disk.deploy("p", Some("dlua/")).unwrap();

    disk.put("/r/dlua/app.dlua", "print('not reviewed')\n");

    let report = disk.commit("p").unwrap();
    assert_eq!(report.files, 1);
    assert_eq!(
        disk.text(&format!("{}/app.dlua", root().init())).unwrap(),
        "print('hi')\n",
        "what was running is what was committed"
    );
    assert_eq!(
        contents(&root().init(), &disk.at(&root().init()).unwrap()).unwrap(),
        vec![("app.dlua".to_string(), b"print('hi')\n".to_vec())]
    );
}

#[test]
fn the_envelope_notices_a_change_under_init() {
    let mut disk = Disk::seeded(&[]);
    disk.deploy("p", Some("dlua/")).unwrap();
    disk.commit("p").unwrap();
    let init = root().init();
    let before = contents(&init, &disk.at(&init).unwrap()).unwrap();

    disk.put("/r/.drt_root/init/app.dlua", "tampered\n");
    let after = contents(&init, &disk.at(&init).unwrap()).unwrap();
    assert_eq!(before.len(), after.len());
    assert_eq!(before[0].0, "app.dlua");
    assert_eq!(after[0].0, "app.dlua");
    assert_ne!(before[0].1, after[0].1);
}

#[test]
fn committing_nothing_says_to_deploy_first() {
    let mut disk = Disk::seeded(&[]);
    let e = disk.commit("p").unwrap_err();
    assert!(e.contains("nothing is deployed"), "{e}");
    assert!(e.contains("drt deploy"), "{e}");
}

#[test]
fn a_nested_tree_survives_deploy_and_commit() {
    let mut disk = Disk::seeded(&[
        ("/r/dlua/lib/inner/deep.dlua", "return 1\n"),
        ("/r/dlua/lib/side.dlua", "return 2\n"),
    ]);
    let report = disk.deploy("p", Some("dlua/")).unwrap();
    assert_eq!(report.files, 3);

    disk.commit("p").unwrap();
    let init = root().init();
    let mut paths: Vec<String> = contents(&init, &disk.at(&init).unwrap())
        .unwrap()
        .into_iter()
        .map(|(p, _)| p)
        .collect();
    paths.sort();
    assert_eq!(
        paths,
        ["app.dlua", "lib/inner/deep.dlua", "lib/side.dlua"],
        "relative paths, sorted, with separators kept"
    );
}

#[test]
fn an_unnamed_project_deploys_under_its_directory_name() {
    assert_eq!(deployment_name(&root(), None), "r");
    assert_eq!(
        deployment_name(&root(), Some("my_drt_project")),
        "my_drt_project"
    );
    assert_eq!(
        deployment_name(&Root { dir: "/".to_string() }, None),
        "deployment"
    );
}

#[test]
fn a_tree_with_too_many_files_is_refused() {
    let all: Vec<(String, Node)> = (0..=MAX_FILES)
        .map(|i| (format!("f{i:06}"), Node::File(Vec::new())))
        .collect();
    let source = source_for(&root(), Some("dlua"));
    let node = Node::Dir(all);
    let plan = deploy(&root(), "p", &source, Some(&node));
    let e = plan.outcome.unwrap_err();
    assert!(e.contains("more than 10000 files under /r/dlua"), "{e}");
    assert!(plan.acts.is_empty(), "a runaway source is refused before anything is touched");
}

fn clear_of(path: &str, act: &Act) -> bool {
    matches!(act, Act::Clear(p) if p == path)
}

fn made(path: &str, act: &Act) -> bool {
    matches!(act, Act::MakeDir(p) if p == path)
}

#[test]
fn a_file_that_cannot_be_read_stops_the_deploy() {
    let source = source_for(&root(), Some("dlua"));
    let node = dir(vec![
        ("a".to_string(), Node::File(b"first".to_vec())),
        ("b".to_string(), Node::Unreadable("denied".to_string())),
        ("c".to_string(), Node::File(b"last".to_vec())),
    ]);
    let plan = deploy(&root(), "p", &source, Some(&node));
    assert_eq!(plan.outcome.unwrap_err(), "cannot read /r/dlua/b: denied");

    // What stands before it is copied into the cleared directory.
    let live = live_path(&root(), "p");
    assert_eq!(plan.acts.len(), 3);
    assert!(clear_of(&live, &plan.acts[0]));
    assert!(made(&live, &plan.acts[1]));
    assert!(matches!(
        &plan.acts[2],
        Act::Write(p, bytes) if *p == format!("{live}/a") && bytes.as_slice() == b"first"
    ));
}

#[test]
fn a_directory_that_cannot_be_listed_is_made_and_stops_the_deploy() {
    let source = source_for(&root(), Some("dlua"));
    let node = dir(vec![("lib".to_string(), Node::Unlisted("denied".to_string()))]);
    let plan = deploy(&root(), "p", &source, Some(&node));
    let e = plan.outcome.unwrap_err();
    assert!(e.contains("/r/dlua/lib: denied"), "{e}");
    let live = live_path(&root(), "p");
    assert_eq!(plan.acts.len(), 3);
    assert!(clear_of(&live, &plan.acts[0]));
    assert!(made(&live, &plan.acts[1]));
    assert!(made(&format!("{live}/lib"), &plan.acts[2]));
}
