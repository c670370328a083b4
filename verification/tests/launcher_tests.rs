use app_launcher::allocator::find_free_port;
use app_launcher::launcher::finish_launch;
use app_launcher::launcher::interpreter_for;
use app_launcher::launcher::prepare_launch;
use app_launcher::launcher::script_path;
use app_launcher::launcher::success_message;
use app_launcher::launcher::LaunchError;
use app_launcher::launcher::Platform;
use app_launcher::table::PortTable;
use app_launcher::text::decimal_string;

#[test]
fn empty_table_allocates_lowest_port() {
    let t = PortTable::new();
    assert_eq!(find_free_port(8000, &t), Ok(8000));
}

#[test]
fn scenario_two_launches_fill_the_table() {
    let mut t = PortTable::new();

    let plan_a = prepare_launch("appA", Platform::Linux, &mut t).unwrap();
    assert_eq!(plan_a.port, 8000);
    assert_eq!(t.get(&"appA".to_string()), Some(8000));
    assert_eq!(t.len(), 1);

    let plan_b = prepare_launch("appB", Platform::Linux, &mut t).unwrap();
    assert_eq!(plan_b.port, 8001);
    assert_eq!(t.get(&"appA".to_string()), Some(8000));
    assert_eq!(t.get(&"appB".to_string()), Some(8001));
    assert_eq!(t.len(), 2);
}

#[test]
fn allocation_skips_taken_ports() {
    let mut t = PortTable::new();
    t.insert("appA".to_string(), 8000);
    t.insert("appB".to_string(), 8001);
    assert_eq!(find_free_port(8000, &t), Ok(8002));
}

#[test]
fn allocation_fills_gaps_lowest_first() {
    let mut t = PortTable::new();
    t.insert("appA".to_string(), 8000);
    t.insert("appC".to_string(), 8002);
    assert_eq!(find_free_port(8000, &t), Ok(8001));
}

#[test]
fn exhausted_range_reports_no_free_ports() {
    let mut t = PortTable::new();
    for i in 0..1000u16 {
        t.insert(format!("app{}", i), 8000 + i);
    }
    assert_eq!(t.len(), 1000);
    assert_eq!(find_free_port(8000, &t), Err(LaunchError::NoFreePorts));
}

#[test]
fn exhausted_range_fails_a_launch() {
    let mut t = PortTable::new();
    for i in 0..1000u16 {
        t.insert(format!("app{}", i), 8000 + i);
    }
    let r = prepare_launch("late", Platform::Linux, &mut t);
    assert_eq!(r.unwrap_err(), LaunchError::NoFreePorts);
    assert_eq!(t.len(), 1000);
    assert_eq!(t.get(&"late".to_string()), None);
}

#[test]
fn distinct_names_get_distinct_ports() {
    let mut t = PortTable::new();
    let names = ["alpha", "beta", "gamma", "delta", "epsilon"];
    let mut ports = Vec::new();
    for name in names {
        let plan = prepare_launch(name, Platform::MacOs, &mut t).unwrap();
        ports.push(plan.port);
    }
    for i in 0..ports.len() {
        for j in (i + 1)..ports.len() {
            assert_ne!(ports[i], ports[j]);
        }
    }
}

#[test]
fn relaunch_gets_a_fresh_port_and_overwrites() {
    let mut t = PortTable::new();
    let first = prepare_launch("appA", Platform::Linux, &mut t).unwrap();
    let second = prepare_launch("appA", Platform::Linux, &mut t).unwrap();
    assert_eq!(first.port, 8000);
    assert_eq!(second.port, 8001);
    assert_ne!(first.port, second.port);
    // the second insert overwrites the first mapping for that name
    assert_eq!(t.len(), 1);
    assert_eq!(t.get(&"appA".to_string()), Some(8001));
}

#[test]
fn unsupported_platform_is_refused_without_table_mutation() {
    let mut t = PortTable::new();
    let r = prepare_launch("appA", Platform::Unsupported, &mut t);
    assert_eq!(r.unwrap_err(), LaunchError::UnsupportedPlatform);
    assert_eq!(t.len(), 0);
    assert_eq!(t.get(&"appA".to_string()), None);
}

#[test]
fn posix_script_path() {
    assert_eq!(script_path("foo", Platform::Linux), "apps/foo/run.sh");
    assert_eq!(script_path("foo", Platform::MacOs), "apps/foo/run.sh");
}

#[test]
fn windows_script_path() {
    assert_eq!(script_path("foo", Platform::Windows), "apps/foo/run.bat");
}

#[test]
fn interpreters_per_platform() {
    assert_eq!(interpreter_for(Platform::Windows), "cmd");
    assert_eq!(interpreter_for(Platform::Linux), "sh");
    assert_eq!(interpreter_for(Platform::MacOs), "sh");
}

#[test]
fn plan_carries_everything_the_shell_needs() {
    let mut t = PortTable::new();
    let plan = prepare_launch("appA", Platform::Windows, &mut t).unwrap();
    assert_eq!(plan.interpreter, "cmd");
    assert!(plan.needs_execute_flag);
    assert_eq!(plan.script_path, "apps/appA/run.bat");
    assert_eq!(plan.port, 8000);
    assert_eq!(plan.port_text, "8000");

    let plan2 = prepare_launch("appB", Platform::Linux, &mut t).unwrap();
    assert_eq!(plan2.interpreter, "sh");
    assert!(!plan2.needs_execute_flag);
    assert_eq!(plan2.script_path, "apps/appB/run.sh");
    assert_eq!(plan2.port, 8001);
    assert_eq!(plan2.port_text, "8001");
}

#[test]
fn decimal_rendering() {
    assert_eq!(decimal_string(0), "0");
    assert_eq!(decimal_string(7), "7");
    assert_eq!(decimal_string(10), "10");
    assert_eq!(decimal_string(8000), "8000");
    assert_eq!(decimal_string(8999), "8999");
    assert_eq!(decimal_string(65535), "65535");
}

#[test]
fn success_message_text() {
    assert_eq!(success_message("appA", 8000), "appA launched on port 8000");
}

#[test]
fn error_message_texts() {
    assert_eq!(
        LaunchError::UnsupportedPlatform.message("appA"),
        "Unsupported operating system"
    );
    assert_eq!(LaunchError::NoFreePorts.message("appA"), "No free ports available");
    assert_eq!(
        LaunchError::SpawnFailed("No such file or directory".to_string()).message("appA"),
        "Failed to launch appA: No such file or directory"
    );
}

#[test]
fn finish_launch_reports_the_outcome() {
    assert_eq!(
        finish_launch("appA", 8000, None),
        Ok("appA launched on port 8000".to_string())
    );
    let r = finish_launch("appA", 8000, Some("boom".to_string()));
    assert_eq!(r, Err(LaunchError::SpawnFailed("boom".to_string())));
    assert_eq!(
        r.unwrap_err().message("appA"),
        "Failed to launch appA: boom"
    );
}

#[test]
fn allocation_starts_at_the_given_port() {
    let t = PortTable::new();
    assert_eq!(find_free_port(8999, &t), Ok(8999));
}

#[test]
fn table_lookups_and_port_queries() {
    let mut t = PortTable::new();
    assert!(!t.contains_port(8000));
    t.insert("appA".to_string(), 8000);
    assert!(t.contains_port(8000));
    assert!(!t.contains_port(8001));
    assert_eq!(t.get(&"appA".to_string()), Some(8000));
    assert_eq!(t.get(&"appB".to_string()), None);
}
