use tkbsv::login::{login_form, session_cookie, view_state};

#[test]
fn session_cookie_takes_first_attribute() {
    assert_eq!(
        session_cookie("[\"ASP.NET_SessionId=abc123; path=/; HttpOnly\"]"),
        "ASP.NET_SessionId=abc123"
    );
    assert_eq!(session_cookie("token=xyz"), "token=xyz");
    assert_eq!(session_cookie(""), "");
    assert_eq!(session_cookie("a[\"b[\"c;d"), "abc");
}

#[test]
fn view_state_reads_two_lines() {
    let body = "<html>\r\n<input type=\"hidden\" name=\"__VIEWSTATE\" id=\"__VIEWSTATE\" value=\"dDwtMTA=\" />\r\n<p>x</p>\n<input type=\"hidden\" name=\"__VIEWSTATEGENERATOR\" value=\"CA0B0334\" />\n</html>";
    assert_eq!(view_state(body), Some(("dDwtMTA=".to_string(), "CA0B0334".to_string())));
}

#[test]
fn view_state_missing() {
    assert_eq!(view_state("<html></html>"), None);
    assert_eq!(view_state("__VIEWSTATE value=\"a\" />"), None);
}

#[test]
fn login_form_hashes_password() {
    let view = ("V1".to_string(), "V2".to_string());
    let form = login_form("CT010101", "abc", &view);
    assert_eq!(form.len(), 14);
    assert_eq!(form[0], ("txtUserName".to_string(), "CT010101".to_string()));
    assert_eq!(
        form[1],
        ("txtPassword".to_string(), "900150983cd24fb0d6963f7d28e17f72".to_string())
    );
    assert_eq!(form[1].1, format!("{:x}", md5::compute("abc")));
    assert_eq!(form[2], ("btnSubmit".to_string(), "Đăng nhập".to_string()));
    assert_eq!(form[6], ("__VIEWSTATE".to_string(), "V1".to_string()));
    assert_eq!(form[7], ("__VIEWSTATEGENERATOR".to_string(), "V2".to_string()));
    assert_eq!(form[9], ("PageHeader1$hidisNotify".to_string(), "0".to_string()));
}
