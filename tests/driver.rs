use build_driver::{Action, Build, Configuration, Driver, DriverError, Event, Observation, Rule, Timestamp};
use std::collections::HashMap;

struct World {
    files: HashMap<String, u64>,
    clock: u64,
    db: HashMap<String, u64>,
    commands: HashMap<String, (Vec<String>, i32)>,
    modules: HashMap<String, Configuration>,
    log: Vec<String>,
    max_running: usize,
}

impl World {
    fn new() -> World {
        World {
            files: HashMap::new(),
            clock: 100,
            db: HashMap::new(),
            commands: HashMap::new(),
            modules: HashMap::new(),
            log: Vec::new(),
            max_running: 0,
        }
    }

    fn touch(&mut self, path: &str) {
        self.clock += 1;
        self.files.insert(path.to_string(), self.clock);
    }

    fn command(&mut self, command: &str, creates: &[&str], exit: i32) {
        self.commands.insert(
            command.to_string(),
            (creates.iter().map(|s| s.to_string()).collect(), exit),
        );
    }

    fn perform(&mut self, action: Action) -> Event {
        match action {
            Action::CheckSources { target, paths } => {
                let missing = paths.iter().find(|p| !self.files.contains_key(*p));
                let result = match missing {
                    Some(p) => Err(DriverError::Io(p.clone(), "not found".to_string())),
                    None => Ok(()),
                };
                Event::SourcesChecked { target, result }
            }
            Action::CompileModule { target, path } => {
                let result = if self.files.contains_key(&path) {
                    match self.modules.get(&path) {
                        Some(c) => Ok(c.clone()),
                        None => Err(DriverError::DynamicModule(path.clone())),
                    }
                } else {
                    Err(DriverError::Io(path.clone(), "not found".to_string()))
                };
                Event::ModuleCompiled { target, result }
            }
            Action::Inspect { target, id, inputs, outputs } => {
                let mut times = Vec::new();
                for input in &inputs {
                    match self.files.get(input) {
                        Some(t) => times.push(Timestamp { secs: *t, nanos: 0 }),
                        None => {
                            return Event::Inspected {
                                target,
                                result: Err(DriverError::Io(input.clone(), "not found".to_string())),
                            }
                        }
                    }
                }
                let present = outputs.iter().map(|o| self.files.contains_key(o)).collect();
                let stored = self.db.get(&id).copied();
                Event::Inspected { target, result: Ok(Observation { times, stored, present }) }
            }
            Action::Run { target, command, .. } => {
                self.log.push(command.clone());
                let (creates, exit) = self.commands.get(&command).cloned().unwrap_or((vec![], 0));
                if exit == 0 {
                    for c in &creates {
                        self.touch(c);
                    }
                }
                Event::Exited { target, success: exit == 0, code: Some(exit) }
            }
            Action::Record { target, id, fingerprint } => {
                self.db.insert(id, fingerprint);
                Event::Recorded { target, result: Ok(()) }
            }
        }
    }

    /// Runs a build to its end; returns its outcome and the commands run.
    fn run(&mut self, config: &Configuration, limit: usize) -> (Result<(), DriverError>, Vec<String>) {
        self.log.clear();
        let mut driver = match Driver::new(config.clone(), limit) {
            Ok(d) => d,
            Err(e) => return (Err(e), vec![]),
        };
        let mut pending: Vec<Action> = Vec::new();
        loop {
            if let Some(r) = driver.outcome() {
                return (r, self.log.clone());
            }
            pending.extend(driver.take_actions());
            let running = driver.running_count();
            self.max_running = self.max_running.max(running);
            assert!(running <= limit);
            if pending.is_empty() {
                panic!("the run stalled");
            }
            // Finish the oldest action first, so several commands can be
            // outstanding at once.
            let action = pending.remove(0);
            let event = self.perform(action);
            driver.handle(event);
        }
    }
}

fn rule(command: &str) -> Option<Rule> {
    Some(Rule { command: command.to_string(), description: None })
}

fn strings(names: &[&str]) -> Vec<String> {
    names.iter().map(|s| s.to_string()).collect()
}

fn target(id: &str, command: Option<&str>, inputs: &[&str], outputs: &[&str]) -> Build {
    Build {
        id: id.to_string(),
        rule: command.and_then(rule),
        inputs: strings(inputs),
        order_only_inputs: vec![],
        outputs: strings(outputs),
        implicit_outputs: vec![],
        dynamic_module: None,
    }
}

fn configuration(builds: Vec<Build>, defaults: &[&str]) -> Configuration {
    Configuration { builds, default_outputs: strings(defaults) }
}

#[test]
fn single_target_runs_once_then_not_at_all() {
    let mut w = World::new();
    w.command("echo hi > out", &["out"], 0);
    let c = configuration(vec![target("out", Some("echo hi > out"), &[], &["out"])], &["out"]);
    let (r, log) = w.run(&c, 4);
    assert_eq!(r, Ok(()));
    assert_eq!(log, strings(&["echo hi > out"]));
    assert!(w.files.contains_key("out"));
    assert_eq!(w.db.len(), 1);
    let (r, log) = w.run(&c, 4);
    assert_eq!(r, Ok(()));
    assert!(log.is_empty());
}

fn chain(w: &mut World) -> Configuration {
    w.touch("a.src");
    w.command("make a", &["a"], 0);
    w.command("make b", &["b"], 0);
    w.command("make c", &["c"], 0);
    configuration(
        vec![
            target("c", Some("make c"), &["b"], &["c"]),
            target("b", Some("make b"), &["a"], &["b"]),
            target("a", Some("make a"), &["a.src"], &["a"]),
        ],
        &["c"],
    )
}

#[test]
fn linear_chain_runs_in_order_and_reruns_on_change() {
    let mut w = World::new();
    let c = chain(&mut w);
    let (r, log) = w.run(&c, 4);
    assert_eq!(r, Ok(()));
    assert_eq!(log, strings(&["make a", "make b", "make c"]));
    w.touch("a.src");
    let (r, log) = w.run(&c, 4);
    assert_eq!(r, Ok(()));
    assert_eq!(log, strings(&["make a", "make b", "make c"]));
    w.touch("c");
    let (_, log) = w.run(&c, 4);
    assert!(log.is_empty());
    w.files.remove("c");
    let (r, log) = w.run(&c, 4);
    assert_eq!(r, Ok(()));
    assert_eq!(log, strings(&["make c"]));
}

#[test]
fn second_run_without_changes_runs_nothing() {
    let mut w = World::new();
    let c = chain(&mut w);
    w.run(&c, 2);
    let (r, log) = w.run(&c, 2);
    assert_eq!(r, Ok(()));
    assert!(log.is_empty());
}

#[test]
fn deleted_output_reruns_only_its_target() {
    let mut w = World::new();
    let c = chain(&mut w);
    w.run(&c, 2);
    w.files.remove("b");
    let (r, log) = w.run(&c, 2);
    assert_eq!(r, Ok(()));
    // b's new output has a new timestamp, so c, which hashes it, runs too.
    assert_eq!(log, strings(&["make b", "make c"]));
}

#[test]
fn touched_explicit_input_reruns_dependent() {
    let mut w = World::new();
    w.touch("in");
    w.command("cp in out", &["out"], 0);
    let c = configuration(vec![target("out", Some("cp in out"), &["in"], &["out"])], &["out"]);
    w.run(&c, 1);
    w.touch("in");
    let (_, log) = w.run(&c, 1);
    assert_eq!(log, strings(&["cp in out"]));
    let (_, log) = w.run(&c, 1);
    assert!(log.is_empty());
}

#[test]
fn order_only_change_does_not_rerun() {
    let mut w = World::new();
    w.command("make gen", &["gen"], 0);
    w.command("make t", &["t"], 0);
    let mut t = target("t", Some("make t"), &[], &["t"]);
    t.order_only_inputs = strings(&["gen"]);
    let c = configuration(vec![t, target("gen", Some("make gen"), &[], &["gen"])], &["t"]);
    let (r, log) = w.run(&c, 2);
    assert_eq!(r, Ok(()));
    assert_eq!(log, strings(&["make gen", "make t"]));
    w.touch("gen");
    let (r, log) = w.run(&c, 2);
    assert_eq!(r, Ok(()));
    assert!(log.is_empty());
}

#[test]
fn diamond_runs_shared_input_once() {
    let mut w = World::new();
    for (cmd, out) in [("make a", "a"), ("make b", "b"), ("make c", "c"), ("make d", "d")] {
        w.command(cmd, &[out], 0);
    }
    let c = configuration(
        vec![
            target("d", Some("make d"), &["b", "c"], &["d"]),
            target("b", Some("make b"), &["a"], &["b"]),
            target("c", Some("make c"), &["a"], &["c"]),
            target("a", Some("make a"), &[], &["a"]),
        ],
        &["d"],
    );
    let (r, log) = w.run(&c, 4);
    assert_eq!(r, Ok(()));
    assert_eq!(log.iter().filter(|c| *c == "make a").count(), 1);
    assert_eq!(log.len(), 4);
    assert_eq!(log[0], "make a");
    assert_eq!(log[3], "make d");
}

#[test]
fn missing_source_fails_with_its_path() {
    let mut w = World::new();
    w.command("make o", &["o"], 0);
    let c = configuration(vec![target("o", Some("make o"), &["src.x"], &["o"])], &["o"]);
    let (r, log) = w.run(&c, 4);
    match r {
        Err(DriverError::Io(path, _)) => assert_eq!(path, "src.x"),
        other => panic!("unexpected {:?}", other),
    }
    assert!(log.is_empty());
}

#[test]
fn dynamic_inputs_are_built_first() {
    let mut w = World::new();
    w.touch("d.dd");
    w.command("make x", &["x"], 0);
    w.command("make o", &["o"], 0);
    let mut o = target("o", Some("make o"), &[], &["o"]);
    o.dynamic_module = Some("d.dd".to_string());
    let c = configuration(vec![o, target("x", Some("make x"), &[], &["x"])], &["o"]);
    w.modules.insert(
        "d.dd".to_string(),
        configuration(vec![target("o-dyn", None, &["x"], &["o"])], &[]),
    );
    let (r, log) = w.run(&c, 4);
    assert_eq!(r, Ok(()));
    assert_eq!(log, strings(&["make x", "make o"]));
    let (r, log) = w.run(&c, 4);
    assert_eq!(r, Ok(()));
    assert!(log.is_empty());
}

#[test]
fn dynamic_input_without_producer_fails() {
    let mut w = World::new();
    w.touch("d.dd");
    let mut o = target("o", Some("make o"), &[], &["o"]);
    o.dynamic_module = Some("d.dd".to_string());
    let c = configuration(vec![o], &["o"]);
    w.modules.insert(
        "d.dd".to_string(),
        configuration(vec![target("o-dyn", None, &["nowhere"], &["o"])], &[]),
    );
    let (r, log) = w.run(&c, 4);
    assert_eq!(r, Err(DriverError::DynamicDependencyNotFound("o".to_string())));
    assert!(log.is_empty());
}

#[test]
fn dynamic_module_without_match_fails() {
    let mut w = World::new();
    w.touch("d.dd");
    let mut o = target("o", Some("make o"), &[], &["o"]);
    o.dynamic_module = Some("d.dd".to_string());
    let c = configuration(vec![o], &["o"]);
    w.modules.insert(
        "d.dd".to_string(),
        configuration(vec![target("other", None, &[], &["p"])], &[]),
    );
    let (r, _) = w.run(&c, 4);
    assert_eq!(r, Err(DriverError::DynamicDependencyNotFound("o".to_string())));
}

#[test]
fn failing_command_reports_exit_code() {
    let mut w = World::new();
    w.command("make a", &["a"], 0);
    w.command("false b", &[], 2);
    let c = configuration(
        vec![
            target("a", Some("make a"), &[], &["a"]),
            target("b", Some("false b"), &[], &["b"]),
        ],
        &["a", "b"],
    );
    let (r, _) = w.run(&c, 1);
    assert_eq!(r, Err(DriverError::CommandExit("false b".to_string(), Some(2))));
    assert!(!w.db.contains_key("b"));
    assert!(w.db.contains_key("a"));
}

#[test]
fn unknown_default_output_fails() {
    let c = configuration(vec![target("a", Some("make a"), &[], &["a"])], &["a", "zzz"]);
    match Driver::new(c, 1) {
        Err(e) => assert_eq!(e, DriverError::DefaultOutputNotFound("zzz".to_string())),
        Ok(_) => panic!("expected an error"),
    }
}

#[test]
fn commands_never_exceed_job_limit() {
    let mut w = World::new();
    let mut builds = vec![];
    let mut names = vec![];
    for k in 0..6 {
        let out = format!("o{}", k);
        let cmd = format!("make {}", out);
        w.command(&cmd, &[out.as_str()], 0);
        builds.push(target(&out, Some(cmd.as_str()), &[], &[out.as_str()]));
        names.push(out);
    }
    let defaults: Vec<&str> = names.iter().map(|s| s.as_str()).collect();
    let c = configuration(builds, &defaults);
    let (r, log) = w.run(&c, 2);
    assert_eq!(r, Ok(()));
    assert_eq!(log.len(), 6);
    assert_eq!(w.max_running, 2);
}

#[test]
fn target_without_rule_runs_no_command() {
    let mut w = World::new();
    w.command("make a", &["a"], 0);
    let c = configuration(
        vec![
            target("all", None, &["a"], &["all"]),
            target("a", Some("make a"), &[], &["a"]),
        ],
        &["all"],
    );
    let (r, log) = w.run(&c, 2);
    assert_eq!(r, Ok(()));
    assert_eq!(log, strings(&["make a"]));
    assert!(w.db.contains_key("all"));
}

#[test]
fn empty_default_list_succeeds_at_once() {
    let c = configuration(vec![target("a", Some("make a"), &[], &["a"])], &[]);
    let d = Driver::new(c, 1).unwrap();
    assert_eq!(d.outcome(), Some(Ok(())));
}
