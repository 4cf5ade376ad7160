use polestar::widgets::app::{
    handle_open_url, open_url_route, route_from_url_parts, AppRoute, OpenUrlError,
};
use polestar::widgets::avatar::get_color_by_hex_str;
use polestar::widgets::quick_launcher::QuickLauncher;

fn login(token: &str, uid: u64) -> Result<Option<AppRoute>, OpenUrlError> {
    Ok(Some(AppRoute::Login { token: token.to_string(), uid }))
}

#[test]
fn login_url_opens_the_login_route() {
    assert_eq!(
        open_url_route("PoleStarChat://ribir.org/login?token=abc&user_id=42"),
        login("abc", 42)
    );
    assert_eq!(
        open_url_route("polestarchat://ribir.org/login?user_id=%2B7&token=a%20b"),
        login("a b", 7)
    );
}

#[test]
fn the_last_repeated_parameter_counts() {
    assert_eq!(
        open_url_route("polestarchat://ribir.org/login?token=t&user_id=1&user_id=2"),
        login("t", 2)
    );
}

#[test]
fn other_urls_name_no_route() {
    assert_eq!(open_url_route("https://ribir.org/home/chat"), Ok(None));
    assert_eq!(open_url_route("polestarchat://ribir.org/login?token=abc"), Ok(None));
    assert_eq!(open_url_route("polestarchat://ribir.org/login/x?token=a&user_id=1"), Ok(None));
    assert_eq!(open_url_route("mailto:someone@ribir.org"), Ok(None));
}

#[test]
fn bad_urls_and_user_ids_are_errors() {
    assert_eq!(open_url_route("not a url"), Err(OpenUrlError::InvalidUrl));
    assert_eq!(open_url_route(""), Err(OpenUrlError::InvalidUrl));
    assert_eq!(
        open_url_route("polestarchat://ribir.org/login?token=a&user_id=abc"),
        Err(OpenUrlError::InvalidUserId)
    );
    assert_eq!(
        open_url_route("polestarchat://ribir.org/login?token=a&user_id=18446744073709551616"),
        Err(OpenUrlError::InvalidUserId)
    );
    assert_eq!(
        open_url_route("polestarchat://ribir.org/login?token=a&user_id=-1"),
        Err(OpenUrlError::InvalidUserId)
    );
}

#[test]
fn routes_from_url_parts() {
    let seg = |s: &[&str]| Some(s.iter().map(|x| x.to_string()).collect::<Vec<_>>());
    let pairs = |p: &[(&str, &str)]| {
        p.iter().map(|(a, b)| (a.to_string(), b.to_string())).collect::<Vec<_>>()
    };
    assert_eq!(
        route_from_url_parts(seg(&["login"]), pairs(&[("user_id", "18446744073709551615"), ("token", "x")])),
        login("x", u64::MAX)
    );
    assert_eq!(route_from_url_parts(None, pairs(&[("user_id", "1"), ("token", "x")])), Ok(None));
    assert_eq!(route_from_url_parts(seg(&["login"]), pairs(&[("user_id", "")]) ), Ok(None));
    assert_eq!(
        route_from_url_parts(seg(&["login"]), pairs(&[("user_id", ""), ("token", "x")])),
        Err(OpenUrlError::InvalidUserId)
    );
}

#[test]
fn avatar_colors_from_hex() {
    assert_eq!(get_color_by_hex_str("#FF8800"), 0xFF8800);
    assert_eq!(get_color_by_hex_str("ff8800"), 0xFF8800);
    assert_eq!(get_color_by_hex_str("##12"), 0x12);
    assert_eq!(get_color_by_hex_str("#+ab"), 0xAB);
    assert_eq!(get_color_by_hex_str("#FFFFFFFF"), u32::MAX);
    assert_eq!(get_color_by_hex_str("#1FFFFFFFF"), 0);
    assert_eq!(get_color_by_hex_str("#12G4"), 0);
    assert_eq!(get_color_by_hex_str("#"), 0);
    assert_eq!(get_color_by_hex_str(""), 0);
    assert_eq!(get_color_by_hex_str("#+"), 0);
    assert_eq!(get_color_by_hex_str("#-1"), 0);
    for c in ["abc", "#abc", "##abc", "zz", "#"] {
        assert_eq!(get_color_by_hex_str(&format!("#{}", c)), get_color_by_hex_str(c));
    }
}

#[test]
fn quick_launcher_starts_empty() {
    let id = uuid::Uuid::new_v4();
    let q = QuickLauncher::new(id);
    assert_eq!(q.channel_id, id);
    assert_eq!(q.msg, None);
    assert_eq!(q.selected_bot_id, None);
    let c = q.clone();
    assert_eq!(c.channel_id, id);
}

#[test]
fn handle_open_url_names_the_route_of_a_good_url() {
    assert_eq!(
        handle_open_url("PoleStarChat://ribir.org/login?token=abc&user_id=42"),
        Some(AppRoute::Login { token: "abc".to_string(), uid: 42 })
    );
    assert_eq!(handle_open_url("https://ribir.org/home/chat"), None);
    assert_eq!(handle_open_url("polestarchat://ribir.org/login?token=abc"), None);
}
