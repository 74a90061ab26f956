use rig_wasm::http_client::WasmHttpClient;
use rig_wasm::order::{str_eq, str_lt};
use rig_wasm::wasm_pack::wasm_pack_args;

#[test]
fn wasm_pack_args_without_typescript() {
    let args = wasm_pack_args("examples/simple_agent.rs", "out/simple", 2, false);
    assert_eq!(
        args,
        vec![
            "build", "--target", "web", "--out-dir", "out/simple", "--out-name", "rig_wasm", "--",
            "examples/simple_agent.rs", "-O", "2",
        ]
    );
}

#[test]
fn wasm_pack_args_with_typescript_and_multi_digit_level() {
    let args = wasm_pack_args("in.rs", "dir", 120, true);
    assert_eq!(args.len(), 12);
    assert_eq!(args[10], "120");
    assert_eq!(args[11], "--typescript");
    assert_eq!(wasm_pack_args("in.rs", "dir", 0, false)[10], "0");
}

#[test]
fn lexicographic_order() {
    assert!(str_lt("a", "b"));
    assert!(!str_lt("b", "a"));
    assert!(str_lt("ab", "abc"));
    assert!(!str_lt("abc", "abc"));
    assert!(str_lt("", "a"));
    assert!(str_lt("Z", "a"));
    assert!(str_eq("héllo", "héllo"));
    assert!(!str_eq("abc", "abd"));
    assert!(!str_eq("ab", "abc"));
}

#[test]
fn http_client_new() {
    assert_eq!(WasmHttpClient::new(), WasmHttpClient);
}
