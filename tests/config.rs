use harriet::conf::{worker_count, ServerConf};
use harriet::routes::{is_valid_directory_name, DirectoryToProcess, Rejection, ACCEPTED};

#[test]
fn conf_keeps_paths_and_workers() {
    let c = ServerConf::new("/in".to_string(), "/out".to_string(), Some(4));
    assert_eq!(c.input_path(), "/in");
    assert_eq!(c.output_path(), "/out");
    assert_eq!(c.worker_threads(), 4);
}

#[test]
fn conf_defaults_to_cpu_count() {
    assert!(ServerConf::new(String::new(), String::new(), None).worker_threads() >= 1);
    assert!(ServerConf::new(String::new(), String::new(), Some(0)).worker_threads() >= 1);
}

#[test]
fn directory_names_must_be_alphanumeric() {
    assert!(is_valid_directory_name("photos2024"));
    assert!(is_valid_directory_name("Été"));
    assert!(!is_valid_directory_name("../etc"));
    assert!(!is_valid_directory_name("a b"));
    assert!(!is_valid_directory_name("a/b"));
    let req = DirectoryToProcess { name: "x.y".to_string() };
    assert!(!req.has_valid_name());
}

#[test]
fn rejections_map_to_statuses() {
    assert_eq!(ACCEPTED, 202);
    assert_eq!(Rejection::InvalidName.status_code(), 422);
    assert_eq!(Rejection::MissingInput.status_code(), 404);
    assert_eq!(Rejection::AlreadyProcessed.status_code(), 422);
    assert_eq!(Rejection::CannotCreateOutput.status_code(), 422);
    assert_eq!(Rejection::LockPoisoned.status_code(), 500);
    assert_eq!(Rejection::QueueClosed.status_code(), 503);
}

#[test]
fn worker_count_defaults_to_cpus() {
    assert_eq!(worker_count(Some(3), 8), 3);
    assert_eq!(worker_count(Some(0), 8), 8);
    assert_eq!(worker_count(None, 6), 6);
    let c = ServerConf::with_cpu_count("/in".to_string(), "/out".to_string(), None, 12);
    assert_eq!(c.worker_threads(), 12);
    assert_eq!(c.input_path(), "/in");
    let c = ServerConf::with_cpu_count(String::new(), String::new(), Some(2), 12);
    assert_eq!(c.worker_threads(), 2);
}
