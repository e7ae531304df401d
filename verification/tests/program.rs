use zeroboot::bench::{judge_isolation, percentiles, tally_echo, OVERWRITE, SECRET};
use zeroboot::cli::{
    bench_workdir, exec_request, parse_command, parse_template_list, serial_line, serve_options,
    template_options, template_spec, Command, UsageError,
};
use zeroboot::keys::{api_keys, api_keys_path, keys_or_none};
use zeroboot::server::{collect_templates, listen_address, TemplateTable};
use zeroboot::snapshot::{mebibytes, snapshot_paths};
use zeroboot::status::rss_kb;

fn strings(list: &[&str]) -> Vec<String> {
    list.iter().map(|s| s.to_string()).collect()
}

#[test]
fn picks_the_subcommand() {
    assert_eq!(parse_command(&strings(&["zeroboot", "template"])), Command::Template);
    assert_eq!(parse_command(&strings(&["zeroboot", "bench", "x"])), Command::Bench);
    assert_eq!(parse_command(&strings(&["zeroboot", "fork-bench"])), Command::Bench);
    assert_eq!(parse_command(&strings(&["zeroboot", "serve"])), Command::Serve);
    assert_eq!(parse_command(&strings(&["zeroboot", "test-exec"])), Command::TestExec);
    assert_eq!(parse_command(&strings(&["zeroboot", "Serve"])), Command::Help);
    assert_eq!(parse_command(&strings(&["zeroboot"])), Command::Help);
    assert_eq!(parse_command(&strings(&[])), Command::Help);
}

#[test]
fn template_defaults() {
    let o = template_options(&strings(&["k", "r", "w"]), None).unwrap();
    assert_eq!((o.kernel.as_str(), o.rootfs.as_str(), o.workdir.as_str()), ("k", "r", "w"));
    assert_eq!((o.wait_secs, o.init_path.as_str(), o.mem_mib), (3, "/init.py", 512));
}

#[test]
fn template_arguments_override() {
    let args = strings(&["k", "r", "w", "10", "/sbin/init", "256"]);
    let o = template_options(&args, Some("1024".to_string())).unwrap();
    assert_eq!((o.wait_secs, o.init_path.as_str(), o.mem_mib), (10, "/sbin/init", 256));
    let args = strings(&["k", "r", "w", "ten", "/i", "lots"]);
    let o = template_options(&args, Some("1024".to_string())).unwrap();
    assert_eq!((o.wait_secs, o.mem_mib), (3, 1024));
    let o = template_options(&args, Some("4294967296".to_string())).unwrap();
    assert_eq!(o.mem_mib, 512);
}

#[test]
fn too_few_arguments_are_refused() {
    assert_eq!(template_options(&strings(&["k", "r"]), None), Err(UsageError::Template));
    assert_eq!(bench_workdir(&strings(&[])), Err(UsageError::Bench));
    assert_eq!(exec_request(&strings(&["w"])), Err(UsageError::TestExec));
    assert_eq!(serve_options(&strings(&[])), Err(UsageError::Serve));
    assert_eq!(
        UsageError::Template.message(),
        "Usage: zeroboot template <kernel> <rootfs> <workdir> [wait_secs] [init_path]"
    );
    assert_eq!(UsageError::Bench.message(), "Usage: zeroboot bench <workdir>");
    assert_eq!(UsageError::TestExec.message(), "Usage: zeroboot test-exec <workdir> <command>");
    assert_eq!(
        UsageError::Serve.message(),
        "Usage: zeroboot serve <workdir>[,lang:workdir2,...] [port]"
    );
}

#[test]
fn exec_command_is_joined() {
    let r = exec_request(&strings(&["w", "echo", "a  b", "c"])).unwrap();
    assert_eq!(r.workdir, "w");
    assert_eq!(r.command, "echo a  b c");
    assert_eq!(serial_line(&r.command), "echo a  b c\n");
    assert_eq!(bench_workdir(&strings(&["w", "x"])), Ok("w".to_string()));
}

#[test]
fn serve_list_and_port() {
    let o = serve_options(&strings(&["/srv/a,node:/srv/b,go:c:d", "9000"])).unwrap();
    assert_eq!(o.port, 9000);
    let got: Vec<(String, String)> = o.templates.into_iter().map(|t| (t.lang, t.dir)).collect();
    let want = [("python", "/srv/a"), ("node", "/srv/b"), ("go", "c:d")];
    assert_eq!(got.len(), 3);
    for i in 0..3usize {
        assert_eq!((got[i].0.as_str(), got[i].1.as_str()), want[i]);
    }
    assert_eq!(serve_options(&strings(&["x"])).unwrap().port, 8080);
    assert_eq!(serve_options(&strings(&["x", "65536"])).unwrap().port, 8080);
    assert_eq!(serve_options(&strings(&["x", "+80"])).unwrap().port, 80);
    assert_eq!(template_spec(":d").lang, "");
    assert_eq!(parse_template_list("").len(), 1);
    assert_eq!(listen_address(8080), "127.0.0.1:8080");
    assert_eq!(listen_address(0), "127.0.0.1:0");
}

#[test]
fn last_template_for_a_language_serves() {
    let specs = parse_template_list("a,node:b,python:c");
    let table = collect_templates(&specs, vec![1, 2, 3]);
    assert_eq!(table.get("python"), Some(&3));
    assert_eq!(table.get("node"), Some(&2));
    assert_eq!(table.get("go"), None);
    let mut t: TemplateTable<u8> = TemplateTable::new();
    assert_eq!(t.get("x"), None);
    t.insert("x".to_string(), 7);
    t.insert("x".to_string(), 8);
    t.insert("y".to_string(), 9);
    assert_eq!((t.get("x"), t.get("y")), (Some(&8), Some(&9)));
}

#[test]
fn api_keys_come_from_json() {
    let file = "[\"k1\", \"k\\u00e92\"]".to_string();
    assert_eq!(api_keys(Some(file)), strings(&["k1", "ké2"]));
    assert_eq!(api_keys(Some("[]".to_string())), strings(&[]));
    assert_eq!(api_keys(Some("[1]".to_string())), strings(&[]));
    assert_eq!(api_keys(Some("not json".to_string())), strings(&[]));
    assert_eq!(api_keys(None), strings(&[]));
    assert_eq!(keys_or_none(Some(strings(&["a"]))), strings(&["a"]));
    assert_eq!(keys_or_none(None), strings(&[]));
    assert_eq!(api_keys_path(None), "api_keys.json");
    assert_eq!(api_keys_path(Some("/etc/k".to_string())), "/etc/k");
}

#[test]
fn rss_is_read_from_status() {
    let status = "Name:\tzeroboot\nVmSize:\t 99 kB\nVmRSS:\t    1234 kB\nVmRSS: 5 kB\n";
    assert_eq!(rss_kb(Some(status.to_string())), 1234);
    assert_eq!(rss_kb(Some("VmRSS:1234 kB".to_string())), 0);
    assert_eq!(rss_kb(Some("VmRSS:\nVmRSS: 7 kB".to_string())), 0);
    assert_eq!(rss_kb(Some(" VmRSS: 7 kB\r\nVmRSS: 8 kB\r\n".to_string())), 8);
    assert_eq!(rss_kb(Some(String::new())), 0);
    assert_eq!(rss_kb(None), 0);
}

#[test]
fn percentiles_stand_in_the_list() {
    let p = percentiles(10000);
    assert_eq!((p.p50, p.p95, p.p99, p.max), (5000, 9500, 9900, 9999));
    let p = percentiles(1);
    assert_eq!((p.p50, p.p95, p.p99, p.max), (0, 0, 0, 0));
    let p = percentiles(7);
    assert_eq!((p.p50, p.p95, p.p99, p.max), (3, 6, 6, 6));
}

#[test]
fn echo_runs_are_counted() {
    let t = tally_echo(4, 0, "$ echo hello\nhello");
    assert_eq!((t.successes, t.warn), (5, false));
    let t = tally_echo(4, 0, "help");
    assert_eq!((t.successes, t.warn), (4, true));
    let t = tally_echo(4, 1, "");
    assert_eq!((t.successes, t.warn), (4, false));
}

#[test]
fn isolation_is_judged() {
    let r = judge_isolation(0, SECRET);
    assert!(r.secret_hidden && r.secret_kept);
    let r = judge_isolation(SECRET, OVERWRITE);
    assert!(!r.secret_hidden && !r.secret_kept);
}

#[test]
fn snapshot_files_and_sizes() {
    let p = snapshot_paths("/work");
    assert_eq!(p.mem, "/work/snapshot/mem");
    assert_eq!(p.state, "/work/snapshot/vmstate");
    assert_eq!(mebibytes(512 << 20), 512);
    assert_eq!(mebibytes((1 << 20) - 1), 0);
}
