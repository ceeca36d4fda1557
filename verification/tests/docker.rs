use specmatrix::backend::Container;
use specmatrix::docker::{check_pinned, config_path, container_name, docker_run_args, ready_url};

fn container(image: &str, port: u16) -> Container {
    Container {
        image: image.to_string(),
        command: Vec::new(),
        port,
        extra_ports: Vec::new(),
        env: Vec::new(),
        ready: None,
        config: None,
    }
}

fn parseable() -> Container {
    let mut c = container("quay.io/parseablehq/parseable:v2.9.4", 8000);
    c.command = vec!["parseable".to_string(), "local-store".to_string()];
    c.env = vec![
        ("P_USERNAME".to_string(), "admin".to_string()),
        ("P_PASSWORD".to_string(), "admin".to_string()),
    ];
    c
}

const TEMP: &str = "/tmp";

#[test]
fn the_container_is_named_after_the_backend() {
    let args = docker_run_args("parseable", &parseable(), TEMP);
    let at = args.iter().position(|a| a == "--name").expect("--name present");
    assert_eq!(args[at + 1], "specmatrix-parseable");
}

#[test]
fn the_port_is_published_on_the_same_number_inside_and_out() {
    let args = docker_run_args("parseable", &parseable(), TEMP);
    assert!(args.windows(2).any(|w| w[0] == "-p" && w[1] == "8000:8000"), "{args:?}");
}

#[test]
fn every_declared_env_var_is_passed() {
    let args = docker_run_args("parseable", &parseable(), TEMP);
    let passed: Vec<&String> = args.windows(2).filter(|w| w[0] == "-e").map(|w| &w[1]).collect();
    assert_eq!(passed.len(), 2);
    assert!(passed.iter().any(|v| v.as_str() == "P_USERNAME=admin"), "{passed:?}");
    assert!(passed.iter().any(|v| v.as_str() == "P_PASSWORD=admin"), "{passed:?}");
}

#[test]
fn the_image_precedes_the_command() {
    let args = docker_run_args("parseable", &parseable(), TEMP);
    let image = args.iter().position(|a| a == "quay.io/parseablehq/parseable:v2.9.4");
    let command = args.iter().position(|a| a == "local-store");
    assert!(image < command, "{args:?}");
}

#[test]
fn extra_ports_are_published_alongside_the_main_one() {
    let mut c = container("x/y:1", 4318);
    c.extra_ports = vec![16686];
    let args = docker_run_args("x", &c, TEMP);
    assert!(args.windows(2).any(|w| w[0] == "-p" && w[1] == "4318:4318"), "{args:?}");
    assert!(args.windows(2).any(|w| w[0] == "-p" && w[1] == "16686:16686"), "{args:?}");
}

#[test]
fn no_config_means_no_volume_mount() {
    let args = docker_run_args("parseable", &parseable(), TEMP);
    assert!(!args.iter().any(|a| a == "-v"), "{args:?}");
}

#[test]
fn an_inline_config_is_mounted_at_the_fixed_path() {
    let mut c = container("x/y:1", 1);
    c.config = Some("key: value\n".to_string());
    let args = docker_run_args("x", &c, TEMP);
    let at = args.iter().position(|a| a == "-v").expect("-v present");
    assert!(args[at + 1].ends_with(":/etc/specmatrix/config.yaml"), "{}", args[at + 1]);
}

#[test]
fn an_unpinned_image_is_refused() {
    let c = container("openobserve/openobserve:latest", 5080);
    assert!(check_pinned(&c).unwrap_err().contains("latest"));
}

#[test]
fn an_untagged_image_is_refused() {
    let c = container("grafana/loki", 3100);
    assert!(check_pinned(&c).is_err());
}

#[test]
fn a_registry_port_is_not_mistaken_for_a_tag() {
    let c = container("localhost:5000/openobserve", 5080);
    assert!(check_pinned(&c).is_err());
}

#[test]
fn a_pinned_image_is_accepted() {
    let c = container("openobserve/openobserve:v0.92.2", 5080);
    assert!(check_pinned(&c).is_ok());
}

#[test]
fn the_whole_command_line_is_in_a_fixed_order() {
    let mut c = parseable();
    c.extra_ports = vec![9000];
    c.config = Some("k: v\n".to_string());
    let args = docker_run_args("parseable", &c, "/tmp/");
    assert_eq!(
        args,
        vec![
            "run",
            "-d",
            "--name",
            "specmatrix-parseable",
            "-p",
            "8000:8000",
            "-p",
            "9000:9000",
            "-v",
            "/tmp/specmatrix-parseable-config.yaml:/etc/specmatrix/config.yaml",
            "-e",
            "P_PASSWORD=admin",
            "-e",
            "P_USERNAME=admin",
            "quay.io/parseablehq/parseable:v2.9.4",
            "parseable",
            "local-store",
        ]
    );
}

#[test]
fn the_environment_is_sorted_whatever_order_it_was_declared_in() {
    let mut a = container("x/y:1", 1);
    a.env = vec![("B".to_string(), "2".to_string()), ("A".to_string(), "1".to_string())];
    let mut b = container("x/y:1", 1);
    b.env = vec![("A".to_string(), "1".to_string()), ("B".to_string(), "2".to_string())];
    assert_eq!(docker_run_args("x", &a, TEMP), docker_run_args("x", &b, TEMP));
}

#[test]
fn a_config_directory_without_a_trailing_slash_gets_one() {
    let mut c = container("x/y:1", 1);
    c.config = Some(String::new());
    let args = docker_run_args("x", &c, "/var/tmp");
    assert!(args.contains(&"/var/tmp/specmatrix-x-config.yaml:/etc/specmatrix/config.yaml".to_string()));
}

#[test]
fn the_unpinned_message_names_the_image() {
    let c = container("grafana/loki", 3100);
    assert_eq!(
        check_pinned(&c).unwrap_err(),
        "adapter image grafana/loki is not pinned; pin the exact tag you tested"
    );
    assert_eq!(container_name("loki"), "specmatrix-loki");
}

#[test]
fn a_readiness_probe_asks_the_base_url_or_an_absolute_one() {
    assert_eq!(ready_url("http://localhost:3100", "GET /ready"), Ok("http://localhost:3100/ready".to_string()));
    assert_eq!(
        ready_url("http://localhost:4318", "GET  http://localhost:3200/ready "),
        Ok("http://localhost:3200/ready".to_string())
    );
    assert_eq!(
        ready_url("http://localhost:3100", "/ready"),
        Err("ready.request must be `METHOD /path`, got \"/ready\"".to_string())
    );
}

#[test]
fn an_inline_config_is_written_beside_the_temp_dir() {
    assert_eq!(config_path("/tmp", "loki"), "/tmp/specmatrix-loki-config.yaml");
    assert_eq!(config_path("/tmp/", "loki"), "/tmp/specmatrix-loki-config.yaml");
}

#[test]
fn a_container_listens_on_its_port_on_localhost() {
    assert_eq!(container("grafana/loki:3.1.1", 3100).url(), "http://localhost:3100");
}
