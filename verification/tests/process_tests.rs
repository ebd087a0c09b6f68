use syslens_collect::dirs::{filter_entries, EntryKind};
use syslens_collect::process::{
    display_cmd, kb_field, parse_stat, parse_status, proc_info, read_cmdline,
    summary_lines, top_mem_lines, total_memory_kb, ProcInfo,
};

const STAT: &str = "1234 (my (odd) proc) S 1 1234 1234 0 -1 4194560 100 0 0 0 250 75 0 0 20 0 1 0 5000 1000000 200 18446744073709551615\n";

fn info(pid: u32, state: &str, rss: u64, cmd: &str) -> ProcInfo {
    ProcInfo {
        pid,
        state: state.to_string(),
        utime: 0,
        stime: 0,
        starttime: 0,
        vm_rss: rss,
        cmdline: cmd.to_string(),
    }
}

#[test]
fn stat_fields() {
    let st = parse_stat(STAT).unwrap();
    assert_eq!(st.pid, 1234);
    assert_eq!(st.comm, "my (odd) proc");
    assert_eq!(st.state, "S");
    assert_eq!(st.utime, 250);
    assert_eq!(st.stime, 75);
    assert_eq!(st.starttime, 5000);
    assert!(parse_stat("1 (x) S 1 2 3").is_none());
    assert!(parse_stat("no parens").is_none());
    assert!(parse_stat("abc (x) S 1 2 3 4 5 6 7 8 9 10 11 12 13 14 15 16 17 18 19 20").is_none());
    assert!(parse_stat("1 )x( S").is_none());
    assert!(parse_stat("x )y( S").is_none());
    assert!(parse_stat(" +7 (a) S 1 2 3 4 5 6 7 8 9 10 11 12 13 14 15 16 17 18 19").unwrap().pid == 7);
}

#[test]
fn status_and_meminfo_fields() {
    assert_eq!(parse_status("Name:\tbash\nVmPeak:\t 1 kB\nVmRSS:\t    5120 kB\n"), 5120);
    assert_eq!(parse_status("Name:\tkthreadd\n"), 0);
    assert_eq!(parse_status("VmRSS:\nVmRSS: 7 kB\n"), 7);
    assert_eq!(parse_status("VmRSS: x kB\n"), 0);
    assert_eq!(total_memory_kb("MemTotal:       16303508 kB\nMemFree: 1 kB\n"), 16303508);
    assert_eq!(kb_field("A: 1\nB: 2\n", "B:"), 2);
}

#[test]
fn command_lines() {
    assert_eq!(read_cmdline(&b"/usr/bin/python3\0-m\0http.server\0".to_vec()), "/usr/bin/python3 -m http.server");
    assert_eq!(read_cmdline(&Vec::new()), "");
    assert_eq!(read_cmdline(&vec![b'a', 0xff, b'b']), "a\u{fffd}b");
    assert_eq!(display_cmd("", "kworker/0:1"), "[kworker/0:1]");
    let long = "x".repeat(60);
    assert_eq!(display_cmd(&long, "c"), "x".repeat(55));
    assert_eq!(display_cmd("short", "c"), "short");
}

#[test]
fn process_entries() {
    let names = vec!["1", "self", "42", "", "0x1", "007"].into_iter().map(String::from).collect();
    assert_eq!(filter_entries(&EntryKind::ProcessDir, names), vec!["1", "42", "007"]);
}

#[test]
fn process_info_from_files() {
    let p = proc_info("1234", &Some(STAT.to_string()), "VmRSS: 300 kB\n", &b"bash\0".to_vec()).unwrap();
    assert_eq!(p.pid, 1234);
    assert_eq!(p.state, "S");
    assert_eq!(p.utime, 250);
    assert_eq!(p.stime, 75);
    assert_eq!(p.starttime, 5000);
    assert_eq!(p.vm_rss, 300);
    assert_eq!(p.cmdline, "bash");
    let p = proc_info("1234", &Some(STAT.to_string()), "", &Vec::new()).unwrap();
    assert_eq!(p.cmdline, "[my (odd) proc]");
    assert!(proc_info("0", &Some(STAT.to_string()), "", &Vec::new()).is_none());
    assert!(proc_info("5", &None, "", &Vec::new()).is_none());
    assert!(proc_info("5", &Some("1 )x(".to_string()), "", &Vec::new()).is_none());
}

#[test]
fn state_counts() {
    let ps = vec![info(1, "R", 0, "a"), info(2, "S", 0, "b"), info(3, "D", 0, "c"), info(4, "Z", 0, "d"), info(5, "t", 0, "e"), info(6, "I", 0, "f")];
    assert_eq!(
        summary_lines(&ps),
        vec![
            "process.total=6",
            "process.running=1",
            "process.sleeping=2",
            "process.zombie=1",
            "process.stopped=1",
        ]
    );
}

#[test]
fn largest_by_memory() {
    let ps = vec![info(1, "S", 100, "a"), info(2, "S", 0, "b"), info(3, "S", 300, "c"), info(4, "S", 100, "d")];
    assert_eq!(
        top_mem_lines(&ps),
        vec![
            "process.topmem_count=3",
            "process.topmem.0.pid=3",
            "process.topmem.0.mem=300",
            "process.topmem.0.cmd=c",
            "process.topmem.1.pid=1",
            "process.topmem.1.mem=100",
            "process.topmem.1.cmd=a",
            "process.topmem.2.pid=4",
            "process.topmem.2.mem=100",
            "process.topmem.2.cmd=d",
        ]
    );
}

#[test]
fn largest_by_memory_keeps_ten() {
    let ps: Vec<ProcInfo> = (1..=12).map(|i| info(i, "S", i as u64, "x")).collect();
    let lines = top_mem_lines(&ps);
    assert_eq!(lines.len(), 31);
    assert_eq!(lines[0], "process.topmem_count=10");
    assert_eq!(lines[1], "process.topmem.0.pid=12");
    assert_eq!(lines[28], "process.topmem.9.pid=3");
    assert_eq!(top_mem_lines(&Vec::new()), vec!["process.topmem_count=0"]);
}
