use fx::cookie::Cookie;
use fx::cookie::CookieJar;

fn cookie(name: &str, value: &str) -> Cookie {
    Cookie { name: name.to_string(), value: value.to_string(), max_age: None, secure: false }
}

#[test]
fn add_get_and_remove() {
    let jar = CookieJar::new();
    assert!(jar.get("auth").is_none());
    let jar = jar.add(cookie("auth", "one")).add(cookie("theme", "dark"));
    assert_eq!(jar.get("auth").unwrap().value, "one");
    assert_eq!(jar.get("theme").unwrap().value, "dark");
    let jar = jar.remove("auth");
    assert!(jar.get("auth").is_none());
    assert_eq!(jar.get("theme").unwrap().value, "dark");
}

#[test]
fn add_replaces_a_cookie_of_the_same_name() {
    let jar = CookieJar::new().add(cookie("auth", "one")).add(cookie("auth", "two"));
    assert_eq!(jar.get("auth").unwrap().value, "two");
}

#[test]
fn remove_of_a_missing_name_is_a_no_op() {
    let jar = CookieJar::new().add(cookie("theme", "dark")).remove("auth");
    assert_eq!(jar.get("theme").unwrap().value, "dark");
    let jar = jar.remove("auth");
    assert_eq!(jar.get("theme").unwrap().value, "dark");
}
