use model_browser::frontend::{
    asset_headers, asset_name, fallback_headers, frontend_reply, mime_or_octet, FrontendReply,
};

#[test]
fn root_serves_index() {
    assert_eq!(asset_name("/"), "index.html");
    assert_eq!(asset_name(""), "index.html");
    assert_eq!(asset_name("//js/app.js"), "js/app.js");
}

#[test]
fn asset_content_types_and_html_headers() {
    let h = asset_headers("index.html");
    assert_eq!(h.mime, "text/html");
    assert!(h.html_headers);
    let j = asset_headers("js/app.js");
    assert_eq!(j.mime, "text/javascript");
    assert!(!j.html_headers);
    assert_eq!(mime_or_octet("blob.unknownext"), "application/octet-stream");
    assert_eq!(mime_or_octet("/lib/a.png"), "image/png");
}

#[test]
fn single_page_fallback() {
    assert!(matches!(frontend_reply("app.js", true, true), FrontendReply::Asset(h) if h.mime == "text/javascript"));
    match frontend_reply("models/x", false, true) {
        FrontendReply::IndexFallback(h) => {
            assert_eq!(h.mime, "text/html; charset=utf-8");
            assert!(h.html_headers);
        }
        _ => panic!("expected the index fallback"),
    }
    assert!(matches!(frontend_reply("x", false, false), FrontendReply::NotFound));
    assert_eq!(fallback_headers().mime, "text/html; charset=utf-8");
}
