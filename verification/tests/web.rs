use den::guard::{extra_hosts, host_name, name_is_ours, origin_host, refusal};
use den::net::{is_tailnet, port_from, reach_of, reachable, url_for, Addr, Ip, Reach, DEFAULT_PORT};
use den::views::error_status;

fn refuse(method: &str, host: Option<&str>, origin: Option<&str>) -> Option<String> {
    // Every host in these tests is either an address or a name, and which is
    // plain from the text: only addresses are written with digits and dots
    // or colons alone.
    let is_address = host
        .map(|h| {
            let n = host_name(h);
            !n.is_empty() && n.chars().all(|c| c.is_ascii_hexdigit() || c == '.' || c == ':')
                && n.chars().any(|c| c.is_ascii_digit())
        })
        .unwrap_or(false);
    refusal(method, host, origin, is_address, &Vec::new())
}

#[test]
fn a_host_header_gives_up_its_name_without_its_port() {
    assert_eq!(host_name("192.168.1.5:5555"), "192.168.1.5");
    assert_eq!(host_name("desktop"), "desktop");
    assert_eq!(host_name("[fd7a:115c:a1e0::1]:5555"), "fd7a:115c:a1e0::1");
    assert_eq!(host_name("[::1]"), "::1");
    assert_eq!(host_name("box.tail1234.ts.net"), "box.tail1234.ts.net");
    assert_eq!(host_name("fd7a:115c:a1e0::1"), "fd7a:115c:a1e0::1");
}

#[test]
fn play_answers_to_addresses_and_to_private_names() {
    assert!(name_is_ours("192.168.1.5:5555", true, &Vec::new()));
    assert!(name_is_ours("100.101.20.33:5555", true, &Vec::new()));
    assert!(name_is_ours("[fd7a:115c:a1e0::1]:5555", true, &Vec::new()));
    assert!(name_is_ours("localhost:5555", false, &Vec::new()));
    assert!(name_is_ours("desktop", false, &Vec::new()));
    assert!(name_is_ours("desktop.local", false, &Vec::new()));
    assert!(name_is_ours("box.tail1234.ts.net", false, &Vec::new()));
}

#[test]
fn a_public_name_pointed_at_a_private_address_is_refused() {
    let said = refuse("GET", Some("games.example.com"), None).expect("refused");
    assert!(said.contains("games.example.com"), "{said}");
    assert!(said.contains("DEN_WEB_HOSTS"), "{said}");
    assert!(!name_is_ours("evil.example.com", false, &Vec::new()));
}

#[test]
fn a_name_you_told_play_about_is_allowed() {
    let extra = extra_hosts("games.example.com, shelf.home.arpa");
    assert_eq!(extra, vec!["games.example.com".to_string(), "shelf.home.arpa".to_string()]);
    assert!(name_is_ours("games.example.com", false, &extra));
    assert!(name_is_ours("GAMES.example.com:5555", false, &extra));
    assert!(name_is_ours("shelf.home.arpa", false, &extra));
    assert!(!name_is_ours("somewhere.example.com", false, &extra));
}

#[test]
fn reading_the_shelf_never_needs_an_origin() {
    assert!(refuse("GET", Some("192.168.1.5:5555"), None).is_none());
    assert!(refuse("GET", Some("192.168.1.5:5555"), Some("https://elsewhere.example")).is_none());
}

#[test]
fn a_post_from_somebody_elses_page_is_refused() {
    let said = refuse("POST", Some("192.168.1.5:5555"), Some("https://elsewhere.example")).expect("refused");
    assert!(said.contains("elsewhere.example"), "{said}");
    assert!(refuse("POST", Some("192.168.1.5:5555"), Some("null")).is_some());
}

#[test]
fn a_post_from_the_shelf_itself_goes_through() {
    assert!(refuse("POST", Some("192.168.1.5:5555"), Some("http://192.168.1.5:5555")).is_none());
    assert!(refuse("POST", Some("box.tail1234.ts.net"), Some("https://box.tail1234.ts.net")).is_none());
}

#[test]
fn a_request_with_no_page_behind_it_is_somebody_at_a_keyboard() {
    assert!(refuse("POST", Some("192.168.1.5:5555"), None).is_none());
    assert!(refuse("POST", None, None).is_none());
}

#[test]
fn a_refusal_says_exactly_what_is_wrong() {
    assert_eq!(
        refuse("GET", Some("games.example.com"), None).unwrap(),
        "Play does not answer to the name `games.example.com`. Open it by address instead, \
         or set DEN_WEB_HOSTS=games.example.com on the machine the library lives on."
    );
    assert_eq!(
        refuse("POST", Some("192.168.1.5:5555"), Some("null")).unwrap(),
        "`null` is not a page Play serves."
    );
    assert_eq!(
        refuse("delete", Some("192.168.1.5:5555"), Some("https://elsewhere.example/x")).unwrap(),
        "That asked from `https://elsewhere.example/x`, which is not Play's own page. \
         Open the shelf itself to start or stop a game."
    );
    assert_eq!(origin_host("https://Box.example:8443/page"), Some("Box.example".to_string()));
    assert_eq!(origin_host("https://"), None);
}

fn v4(a: u8, b: u8, c: u8, d: u8) -> Ip {
    Ip::V4(a, b, c, d)
}

#[test]
fn the_tailnet_range_is_told_apart_from_the_house_network() {
    assert!(is_tailnet(v4(100, 64, 0, 1)));
    assert!(is_tailnet(v4(100, 101, 20, 33)));
    assert!(is_tailnet(v4(100, 127, 255, 254)));
    assert!(!is_tailnet(v4(100, 63, 255, 255)));
    assert!(!is_tailnet(v4(100, 128, 0, 0)));
    assert!(!is_tailnet(v4(192, 168, 1, 40)));
    assert!(!is_tailnet(v4(10, 0, 0, 5)));
}

#[test]
fn tailscales_ipv6_range_counts_too() {
    assert!(is_tailnet(Ip::V6(0xfd7a, 0x115c, 0xa1e0, 0, 0, 0, 0x1a2b, 0x3c4d)));
    assert!(!is_tailnet(Ip::V6(0xfd00, 0, 0, 0, 0, 0, 0, 1)));
    assert!(!is_tailnet(Ip::V6(0, 0, 0, 0, 0, 0, 0, 1)));
}

#[test]
fn every_address_is_labelled_with_where_it_works() {
    assert_eq!(reach_of(v4(127, 0, 0, 1)), Reach::Machine);
    assert_eq!(reach_of(v4(192, 168, 1, 40)), Reach::Network);
    assert_eq!(reach_of(v4(100, 101, 20, 33)), Reach::Tailnet);
    assert_eq!(Reach::Tailnet.word(), "your tailnet");
}

#[test]
fn the_network_comes_before_the_tailnet_and_the_machine_last() {
    let mut reaches = [Reach::Machine, Reach::Tailnet, Reach::Network];
    reaches.sort_by_key(|r| r.order());
    assert_eq!(reaches, [Reach::Network, Reach::Tailnet, Reach::Machine]);
}

fn addr(ip: Ip, text: &str) -> Addr {
    Addr { ip, text: text.to_string() }
}

#[test]
fn a_listener_bound_to_one_address_offers_only_that_one() {
    let rows = reachable(&addr(v4(100, 101, 20, 33), "100.101.20.33"), 5555, &Vec::new());
    assert_eq!(rows.len(), 1);
    assert_eq!(rows[0].url, "http://100.101.20.33:5555");
    assert_eq!(rows[0].reach, "your tailnet");
    let rows = reachable(&addr(v4(127, 0, 0, 1), "127.0.0.1"), 5555, &Vec::new());
    assert_eq!(rows[0].reach, "this machine");
}

#[test]
fn an_ipv6_address_is_bracketed_so_the_url_is_clickable() {
    assert_eq!(
        url_for(&addr(Ip::V6(0xfd7a, 0x115c, 0xa1e0, 0, 0, 0, 0, 1), "fd7a:115c:a1e0::1"), 5555),
        "http://[fd7a:115c:a1e0::1]:5555"
    );
    assert_eq!(url_for(&addr(v4(10, 0, 0, 2), "10.0.0.2"), 80), "http://10.0.0.2:80");
}

#[test]
fn an_unspecified_listener_offers_what_the_probes_found_nearest_first() {
    let probes = vec![
        Some(addr(v4(100, 101, 20, 33), "100.101.20.33")),
        None,
        Some(addr(v4(192, 168, 1, 40), "192.168.1.40")),
        Some(addr(v4(192, 168, 1, 40), "192.168.1.40")),
        Some(addr(v4(127, 0, 0, 1), "127.0.0.1")),
        Some(addr(v4(0, 0, 0, 0), "0.0.0.0")),
    ];
    let rows = reachable(&addr(v4(0, 0, 0, 0), "0.0.0.0"), 5555, &probes);
    assert_eq!(rows.len(), 2);
    assert_eq!(rows[0].url, "http://192.168.1.40:5555");
    assert_eq!(rows[0].reach, "this network");
    assert_eq!(rows[1].url, "http://100.101.20.33:5555");
    assert_eq!(rows[1].reach, "your tailnet");
}

#[test]
fn the_remote_is_on_5555_until_told_otherwise_and_zero_turns_it_off() {
    assert_eq!(port_from(None), Some(DEFAULT_PORT));
    assert_eq!(port_from(Some(" 8080 ")), Some(8080));
    assert_eq!(port_from(Some("0")), None);
    assert_eq!(port_from(Some("not a port")), Some(5555));
    assert_eq!(port_from(Some("70000")), Some(5555));
}

#[test]
fn a_missing_thing_is_a_404_and_anything_else_a_400() {
    assert_eq!(error_status("game not found"), 404);
    assert_eq!(error_status("the library is busy"), 400);
}

#[test]
fn binding_to_the_tailnet_alone_is_the_only_address_offered() {
    assert_eq!(port_from(Some("5555")), Some(5555));
    let bound = addr(v4(127, 0, 0, 1), "127.0.0.1");
    assert_eq!(bound.text, "127.0.0.1");
    let rows = reachable(&bound, 5555, &vec![Some(addr(v4(192, 168, 1, 4), "192.168.1.4"))]);
    assert_eq!(rows.len(), 1);
    assert_eq!(rows[0].url, "http://127.0.0.1:5555");
    assert_eq!(rows[0].reach, "this machine");
}

#[test]
fn somebody_elses_page_cannot_start_a_game() {
    let said = refuse("POST", Some("192.168.1.5:5555"), Some("https://elsewhere.example")).expect("refused");
    assert!(said.contains("elsewhere.example"), "{said}");
    assert!(refuse("POST", Some("192.168.1.5:5555"), Some("http://192.168.1.5:5555")).is_none());
}

#[test]
fn a_name_pointed_at_this_machine_from_outside_is_refused() {
    let said = refuse("GET", Some("games.example.com"), None).expect("refused");
    assert!(said.contains("DEN_WEB_HOSTS"));
    for host in ["192.168.1.5:5555", "100.101.20.33:5555", "box.tail1234.ts.net", "desktop"] {
        assert!(refuse("GET", Some(host), None).is_none(), "{host} was turned away");
    }
}

#[test]
fn missing_game_is_a_404_in_words() {
    let said = den::den::Error::NotFound.message();
    assert!(said.contains("not found"));
    assert_eq!(error_status(&said), 404);
}

#[test]
fn the_remote_listens_everywhere_unless_told_an_address() {
    let v4 = |a, b, c, d| Ip::V4(a, b, c, d);
    assert_eq!(den::net::bind_address(false, None), (v4(0, 0, 0, 0), false));
    assert_eq!(den::net::bind_address(true, None), (v4(0, 0, 0, 0), true));
    assert_eq!(den::net::bind_address(true, Some(v4(127, 0, 0, 1))), (v4(127, 0, 0, 1), false));
}
