use chrome_devtools_cli::cdp::{
    page_targets, push_to_buffer, select_page, TabEmulation, TabStore, TargetInfo,
    MAX_BUFFERED_EVENTS,
};
use std::collections::VecDeque;
use chrome_devtools_cli::cdp::{
    begin_session_switch, keeps_collected_event, route_event, EventBuffers, EventRoute, TabState,
};

fn target(id: &str, kind: &str, title: &str, url: &str) -> TargetInfo {
    TargetInfo {
        target_id: id.to_string(),
        title: title.to_string(),
        url: url.to_string(),
        target_type: kind.to_string(),
    }
}

fn tab(blocklist: Vec<String>) -> TabEmulation<(), ()> {
    TabEmulation { blocklist, viewport: None, geolocation: None }
}

#[test]
fn test_event_buffer_capping() {
    let mut events: VecDeque<usize> = VecDeque::new();
    for i in 0..(MAX_BUFFERED_EVENTS + 10) {
        push_to_buffer(&mut events, i);
    }
    assert_eq!(events.len(), MAX_BUFFERED_EVENTS);
    // The first 10 events were dropped.
    assert_eq!(*events.front().unwrap(), 10);
    assert_eq!(*events.back().unwrap(), MAX_BUFFERED_EVENTS + 9);
}

#[test]
fn test_parse_target_infos() {
    let all = vec![
        target("123", "page", "Test Page", "https://example.com"),
        target("456", "background_page", "BG", "chrome-extension://..."),
    ];
    let pages = page_targets(all);
    assert_eq!(pages.len(), 1);
    assert_eq!(pages[0].target_id, "123");

    let empty = page_targets(Vec::new());
    assert!(empty.is_empty());
}

#[test]
fn switching_to_fresh_tab_does_not_inherit_blocklist() {
    let mut saved: TabStore<(), ()> = TabStore::new();
    saved.stash("A".to_string(), tab(vec!["*.png".to_string()]));

    let b_state = saved.take("B");
    assert!(b_state.blocklist.is_empty(), "tab B must not inherit tab A's block rule");
    assert!(saved.contains("A"));
    let a_state = saved.take("A");
    assert_eq!(a_state.blocklist, vec!["*.png".to_string()]);
}

#[test]
fn returning_to_tab_restores_and_consumes_its_state() {
    let mut saved: TabStore<(), ()> = TabStore::new();
    saved.stash("A".to_string(), tab(vec!["*.png".to_string()]));

    let restored = saved.take("A");
    assert_eq!(restored.blocklist, vec!["*.png".to_string()]);
    assert!(!saved.contains("A"), "the restored entry should be consumed, not duplicated");
}

#[test]
fn empty_tab_state_is_not_stashed() {
    let mut saved: TabStore<(), ()> = TabStore::new();
    saved.stash("A".to_string(), tab(Vec::new()));
    assert!(!saved.contains("A"), "an empty tab must not create a map entry");
}

fn two_pages() -> Vec<TargetInfo> {
    vec![
        target("t1", "page", "One", "https://one.example"),
        target("t2", "page", "Two", "https://two.example"),
    ]
}

#[test]
fn select_page_by_index_and_id() {
    let by_index = select_page(two_pages(), None, Some(1)).unwrap();
    assert_eq!(by_index.target_id, "t2");
    let first = select_page(two_pages(), None, None).unwrap();
    assert_eq!(first.target_id, "t1");
    let by_id = select_page(two_pages(), Some("t1"), None).unwrap();
    assert_eq!(by_id.title, "One");
    assert_eq!(
        select_page(two_pages(), Some("zz"), None).err().unwrap(),
        "No page with target ID: zz"
    );
    assert_eq!(select_page(two_pages(), None, Some(2)).err().unwrap(), "No page at index 2");
}


#[test]
fn events_are_routed_by_session() {
    assert_eq!(route_event(Some("S1"), Some("S1"), "Network.responseReceived"), EventRoute::Network);
    assert_eq!(route_event(Some("S1"), Some("S1"), "Runtime.exceptionThrown"), EventRoute::Console);
    assert_eq!(route_event(Some("S1"), Some("S2"), "Runtime.consoleAPICalled"), EventRoute::General);
    assert_eq!(route_event(None, Some("S1"), "Network.loadingFailed"), EventRoute::General);
    assert_eq!(route_event(Some("S1"), Some("S1"), "Page.loadEventFired"), EventRoute::General);
    assert!(keeps_collected_event(false, "Page.frameNavigated"));
    assert!(!keeps_collected_event(false, "Network.requestWillBeSent"));
    assert!(keeps_collected_event(true, "Runtime.consoleAPICalled"));
}

#[test]
fn event_buffers_file_events() {
    let mut b: EventBuffers<u32> = EventBuffers::new();
    b.push_event(EventRoute::Network, 1);
    b.push_event(EventRoute::General, 2);
    b.push_event(EventRoute::Console, 3);
    assert_eq!(b.network_events.iter().copied().collect::<Vec<_>>(), vec![1]);
    assert_eq!(b.events.iter().copied().collect::<Vec<_>>(), vec![2]);
    assert_eq!(b.console_events.iter().copied().collect::<Vec<_>>(), vec![3]);
}

#[test]
fn switching_tabs_keeps_each_tabs_overrides() {
    let mut tabs: TabState<(), ()> = TabState::new();
    tabs.switch_to("A");
    tabs.active.blocklist.push("*.png".to_string());
    tabs.switch_to("B");
    assert!(tabs.active.blocklist.is_empty());
    tabs.switch_to("A");
    assert_eq!(tabs.active.blocklist, vec!["*.png".to_string()]);
    tabs.forget_target("A");
    assert!(tabs.active_target.is_none());
    assert!(tabs.active.blocklist.is_empty());
}

#[test]
fn session_switch_clears_persistent_events_and_isolates_tabs() {
    let mut tabs: TabState<(), ()> = TabState::new();
    let mut b: EventBuffers<u32> = EventBuffers::new();
    assert!(begin_session_switch(&mut tabs, &mut b, false, "A"));
    tabs.switch_to("A");
    tabs.active.blocklist.push("*.png".to_string());
    b.push_event(EventRoute::Network, 1);
    b.push_event(EventRoute::Console, 2);
    b.push_event(EventRoute::General, 3);
    // already attached to A: nothing changes
    assert!(!begin_session_switch(&mut tabs, &mut b, true, "A"));
    assert_eq!(b.network_events.len(), 1);
    assert_eq!(tabs.active_target.as_deref(), Some("A"));
    // moving to B
    assert!(begin_session_switch(&mut tabs, &mut b, true, "B"));
    assert!(b.network_events.is_empty());
    assert!(b.console_events.is_empty());
    assert_eq!(b.events.iter().copied().collect::<Vec<_>>(), vec![3]);
    assert!(tabs.active_target.is_none());
    assert!(tabs.saved.contains("A"));
    tabs.switch_to("B");
    assert!(tabs.active.blocklist.is_empty());
    assert!(!tabs.saved.contains("B"));
    // and back to A
    assert!(begin_session_switch(&mut tabs, &mut b, true, "A"));
    tabs.switch_to("A");
    assert_eq!(tabs.active.blocklist, vec!["*.png".to_string()]);
    assert!(!tabs.saved.contains("A"));
}
