use ldap3::url::{parse_url, LdapUrl, Scheme};

fn url(scheme: Scheme, host: &str, port: u16) -> Option<LdapUrl> {
    Some(LdapUrl { scheme, host: host.to_string(), port })
}

#[test]
fn url_default_ports() {
    assert_eq!(parse_url("ldap://localhost"), url(Scheme::Ldap, "localhost", 389));
    assert_eq!(parse_url("ldaps://localhost"), url(Scheme::Ldaps, "localhost", 636));
}

#[test]
fn url_explicit_ports() {
    assert_eq!(parse_url("ldap://localhost:3890"), url(Scheme::Ldap, "localhost", 3890));
    assert_eq!(parse_url("ldaps://ldap.example.org:1636"), url(Scheme::Ldaps, "ldap.example.org", 1636));
    assert_eq!(parse_url("ldap://h:0"), url(Scheme::Ldap, "h", 0));
    assert_eq!(parse_url("ldap://h:65535"), url(Scheme::Ldap, "h", 65535));
    assert_eq!(parse_url("ldap://h:65536"), None);
    assert_eq!(parse_url("ldap://h:"), None);
    assert_eq!(parse_url("ldap://h:12x"), None);
}

#[test]
fn url_path_is_not_looked_at() {
    assert_eq!(parse_url("ldap://localhost:2389/dc=example,dc=org"), url(Scheme::Ldap, "localhost", 2389));
    assert_eq!(parse_url("ldap://localhost/a:b"), url(Scheme::Ldap, "localhost", 389));
}

#[test]
fn url_bracketed_address() {
    assert_eq!(parse_url("ldap://[::1]:3389"), url(Scheme::Ldap, "[::1]", 3389));
    assert_eq!(parse_url("ldaps://[::1]"), url(Scheme::Ldaps, "[::1]", 636));
}

#[test]
fn url_socket_path_is_decoded() {
    assert_eq!(
        parse_url("ldapi://%2Fvar%2Frun%2Fldapi"),
        url(Scheme::Ldapi, "/var/run/ldapi", 0)
    );
    assert_eq!(parse_url("ldapi://%2fx%20y"), url(Scheme::Ldapi, "/x y", 0));
    assert_eq!(parse_url("ldapi://ldapi"), url(Scheme::Ldapi, "ldapi", 0));
    assert_eq!(parse_url("ldapi://"), None);
    assert_eq!(parse_url("ldapi://%2"), None);
    assert_eq!(parse_url("ldapi://%zz"), None);
    assert_eq!(parse_url("ldapi://%ff"), None);
}

#[test]
fn url_rejected() {
    assert_eq!(parse_url(""), None);
    assert_eq!(parse_url("ldap:/x"), None);
    assert_eq!(parse_url("http://localhost"), None);
    assert_eq!(parse_url("ldapx://localhost"), None);
    assert_eq!(parse_url("ldap://"), None);
    assert_eq!(parse_url("ldap://:389"), None);
    assert_eq!(parse_url("LDAP://localhost"), None);
}
