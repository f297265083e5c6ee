use wbor_studio_dashboard::request::build_url;
use wbor_studio_dashboard::ipc::ipc_socket_path;

fn strings(items: &[&str]) -> Vec<String> {
    items.iter().map(|s| s.to_string()).collect()
}

fn pairs(items: &[(&str, &str)]) -> Vec<(String, String)> {
    items.iter().map(|(a, b)| (a.to_string(), b.to_string())).collect()
}

#[test]
fn url_with_path_and_query() {
    let url = build_url("https://spinitron.com/api", &strings(&["spins", "42"]), &pairs(&[("access-token", "abc"), ("count", "1")]));
    assert_eq!(url, "https://spinitron.com/api/spins/42?access-token=abc&count=1");
}

#[test]
fn url_with_only_base() {
    assert_eq!(build_url("https://example.com", &[], &[]), "https://example.com");
}

#[test]
fn url_with_only_query() {
    let url = build_url("https://api.example.com/x.json", &[], &pairs(&[("To", "+1"), ("PageSize", "5")]));
    assert_eq!(url, "https://api.example.com/x.json?To=+1&PageSize=5");
}

#[test]
fn url_with_only_path() {
    assert_eq!(build_url("b", &strings(&["p", "q"]), &[]), "b/p/q");
}

#[test]
fn socket_path() {
    assert_eq!(ipc_socket_path("twilio_instant_update"), "/tmp/wbor_studio_dashboard_twilio_instant_update.sock");
}
