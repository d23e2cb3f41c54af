use nanobot_rs::memory::MemoryStore;
use nanobot_rs::service::{
    install_service, is_marked_for_delete_error, output_text, parse_state, remove_service,
    restart_service, start_service, status_service, stop_service, with_service_hints,
    ServiceAccount, ServiceInstallOptions,
};

#[test]
fn parse_state_extracts_running() {
    let sample = b"SERVICE_NAME: nanobot-rs\n        STATE              : 4  RUNNING".to_vec();
    assert_eq!(parse_state(&sample), Some(b"RUNNING".to_vec()));
}

#[test]
fn parse_state_handles_missing_line() {
    let sample = b"SERVICE_NAME: nanobot-rs".to_vec();
    assert_eq!(parse_state(&sample), None);
}

#[test]
fn parse_state_takes_a_symbolic_first_token() {
    let sample = b"  STATE : STOPPED extra".to_vec();
    assert_eq!(parse_state(&sample), Some(b"STOPPED".to_vec()));
}

#[test]
fn parse_state_needs_a_colon_and_a_token() {
    assert_eq!(parse_state(&b"STATE without colon".to_vec()), None);
    assert_eq!(parse_state(&b"STATE :   ".to_vec()), None);
    assert_eq!(parse_state(&b"STATE : 4".to_vec()), None);
}

#[test]
fn marked_for_delete_is_recognized_in_both_texts() {
    assert!(is_marked_for_delete_error(
        &b"The specified service has been Marked For Deletion.".to_vec()
    ));
    let zh = "服务已标记为删除。".as_bytes().to_vec();
    assert!(is_marked_for_delete_error(&zh));
    assert!(!is_marked_for_delete_error(&b"some other failure".to_vec()));
}

#[test]
fn service_hints_decorate_known_failures() {
    let marked = with_service_hints(&b"error: marked for deletion".to_vec(), &b"nb".to_vec());
    let expected_marked = b"error: marked for deletion\nhint: service 'nb' is pending deletion.\nclose Services.msc / Event Viewer windows, wait a few seconds, then retry.\nif it still persists, reboot Windows or use a different name via --name.".to_vec();
    assert_eq!(marked, expected_marked);

    let denied = with_service_hints(&b"Access is denied".to_vec(), &b"nb".to_vec());
    let expected_denied = b"Access is denied\nhint: run the terminal as Administrator and retry.\nsuggested: nanobot service install --name nb".to_vec();
    assert_eq!(denied, expected_denied);

    let other = with_service_hints(&b"plain failure".to_vec(), &b"nb".to_vec());
    assert_eq!(other, b"plain failure".to_vec());
}

#[test]
fn output_text_trims_surrounding_whitespace() {
    assert_eq!(output_text(&b"  RUNNING \r\n".to_vec()), b"RUNNING".to_vec());
    assert_eq!(output_text(&b"".to_vec()), b"".to_vec());
}

#[test]
fn service_commands_report_the_platform_limit() {
    let options = ServiceInstallOptions {
        name: b"nb".to_vec(),
        binary_path: b"/usr/bin/nb".to_vec(),
        arguments: b"agent".to_vec(),
        working_directory: b"/srv/nb".to_vec(),
        log_directory: b"/srv/nb/logs".to_vec(),
        account: ServiceAccount::LocalSystem,
        auto_install_nssm: false,
        autostart: true,
    };
    let expected = b"Service management is currently supported on Windows only.".to_vec();
    assert_eq!(install_service(&options).unwrap_err().message, expected);
    assert_eq!(remove_service(&b"nb".to_vec()).unwrap_err().message, expected);
    assert_eq!(start_service(&b"nb".to_vec()).unwrap_err().message, expected);
    assert_eq!(stop_service(&b"nb".to_vec()).unwrap_err().message, expected);
    assert_eq!(restart_service(&b"nb".to_vec()).unwrap_err().message, expected);
    assert_eq!(status_service(&b"nb".to_vec()).unwrap_err().message, expected);
}

#[test]
fn memory_store_lays_out_its_files() {
    let store = MemoryStore::new(b"/home/user/.nanobot/workspace".to_vec());
    assert_eq!(store.memory_dir, b"/home/user/.nanobot/workspace/memory".to_vec());
    assert_eq!(
        store.memory_file,
        b"/home/user/.nanobot/workspace/memory/MEMORY.md".to_vec()
    );
    assert_eq!(
        store.get_today_file(&b"2026-10-11".to_vec()),
        b"/home/user/.nanobot/workspace/memory/2026-10-11.md".to_vec()
    );
}

#[test]
fn append_today_content_heads_new_files_and_extends_old_ones() {
    let store = MemoryStore::new(b"/ws".to_vec());
    let date = b"2026-10-11".to_vec();
    assert_eq!(
        store.append_today_content(&date, None, &b"note".to_vec()),
        b"# 2026-10-11\n\nnote".to_vec()
    );
    assert_eq!(
        store.append_today_content(&date, Some(&b"".to_vec()), &b"note".to_vec()),
        b"note".to_vec()
    );
    assert_eq!(
        store.append_today_content(&date, Some(&b"old".to_vec()), &b"note".to_vec()),
        b"old\nnote".to_vec()
    );
}

#[test]
fn memory_context_joins_the_non_empty_sections() {
    let store = MemoryStore::new(b"/ws".to_vec());
    assert_eq!(store.get_memory_context(&b"".to_vec(), &b"".to_vec()), b"".to_vec());
    assert_eq!(
        store.get_memory_context(&b"facts".to_vec(), &b"".to_vec()),
        b"## Long-term Memory\nfacts".to_vec()
    );
    assert_eq!(
        store.get_memory_context(&b"".to_vec(), &b"today".to_vec()),
        b"## Today's Notes\ntoday".to_vec()
    );
    assert_eq!(
        store.get_memory_context(&b"facts".to_vec(), &b"today".to_vec()),
        b"## Long-term Memory\nfacts\n\n## Today's Notes\ntoday".to_vec()
    );
}
