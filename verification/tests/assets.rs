//! The files of the page, the licenses and the QR codes.

use zkv::gui::assets::{index_html, lookup, replace_all, text_or_fault, Licenses};
use zkv::gui::qr::{qr_svg, render_svg, QrMatrix};

const BUNDLE: [u8; 248] = [
    31, 139, 8, 0, 0, 0, 0, 0, 2, 3, 157, 210, 61, 78, 195, 64, 16, 64, 225, 126,
    79, 49, 37, 72, 36, 242, 204, 240, 223, 89, 16, 132, 11, 112, 228, 172, 132, 40, 141, 217,
    196, 6, 17, 71, 107, 11, 9, 78, 15, 21, 61, 239, 0, 239, 85, 223, 247, 251, 167, 28,
    205, 253, 48, 201, 33, 143, 111, 169, 155, 143, 195, 67, 21, 165, 110, 164, 60, 180, 93, 159,
    22, 182, 44, 66, 136, 247, 85, 115, 187, 88, 151, 77, 124, 150, 77, 125, 23, 159, 202, 102,
    37, 143, 117, 172, 110, 86, 155, 16, 186, 220, 206, 73, 138, 162, 184, 150, 117, 202, 31, 195,
    52, 13, 227, 94, 126, 151, 125, 202, 233, 229, 75, 118, 185, 221, 207, 233, 245, 68, 182, 57,
    37, 25, 183, 210, 245, 109, 222, 165, 229, 95, 168, 52, 52, 26, 58, 13, 79, 105, 120, 70,
    195, 115, 26, 94, 208, 240, 146, 134, 87, 48, 84, 42, 71, 169, 28, 165, 114, 148, 202, 81,
    42, 71, 169, 28, 165, 114, 148, 202, 81, 42, 71, 169, 28, 163, 114, 140, 202, 49, 42, 199,
    168, 28, 163, 114, 140, 202, 49, 42, 199, 168, 28, 163, 114, 140, 202, 113, 42, 199, 169, 28,
    167, 114, 156, 202, 113, 42, 199, 169, 28, 167, 114, 156, 202, 113, 42, 199, 255, 45, 231, 7,
    197, 62, 40, 5, 44, 9, 0, 0,
];

#[test]
fn license_bundle_inflates_and_mentions_project() {
    let mut licenses = Licenses::new(BUNDLE.to_vec());
    let text = licenses.licenses_text();
    assert!(text.len() > 1000, "bundle unexpectedly small");
    assert!(text.contains("THIRD-PARTY SOFTWARE NOTICES"));
    assert!(text.contains("zkv (this project)"));
    assert!(text.ends_with("crate 039: Permission is hereby granted, free of charge.\n"));
    let place = text.as_ptr() as usize;
    assert_eq!(licenses.licenses_text().as_ptr() as usize, place, "inflated once");
}

#[test]
fn a_broken_bundle_is_told() {
    let mut licenses = Licenses::new(b"no gzip".to_vec());
    assert_eq!(licenses.licenses_text(), "Failed to decode the license bundle.");
    assert_eq!(text_or_fault(None), "Failed to decode the license bundle.");
    assert_eq!(text_or_fault(Some("MIT".to_owned())), "MIT");
}

#[test]
fn page_is_filled_in() {
    assert_eq!(replace_all("aXbXc", "X", "--"), "a--b--c");
    assert_eq!(replace_all("aaa", "aa", "b"), "ba");
    assert_eq!(replace_all("abc", "zz", "q"), "abc");
    let page = index_html("<t>__ZKV_TOKEN__</t><s nonce=__ZKV_NONCE__>__ZKV_TOKEN__", "tok", "non");
    assert_eq!(page, "<t>tok</t><s nonce=non>tok");
}

#[test]
fn only_known_files_are_served() {
    assert_eq!(lookup("styles.css"), Some("text/css; charset=utf-8"));
    assert_eq!(lookup("js/app.js"), Some("text/javascript; charset=utf-8"));
    assert_eq!(lookup("design-system/assets/logo-mark-dark.svg"), Some("image/svg+xml"));
    assert_eq!(lookup("fonts/ibm-plex-mono-latin-400-normal.woff2"), Some("font/woff2"));
    assert_eq!(lookup("fonts/OFL.txt"), Some("text/plain; charset=utf-8"));
    assert_eq!(lookup("../keys.toml"), None);
    assert_eq!(lookup("/styles.css"), None);
}

#[test]
fn a_code_is_drawn_module_by_module() {
    let m = QrMatrix { width: 2, dark: vec![true, false, false, true] };
    assert_eq!(
        render_svg(&m),
        "<svg xmlns=\"http://www.w3.org/2000/svg\" viewBox=\"0 0 10 10\" shape-rendering=\"crispEdges\" \
         role=\"img\" aria-label=\"QR code\"><rect width=\"10\" height=\"10\" fill=\"#ffffff\"/>\
         <path d=\"M4 4h1v1h-1zM5 5h1v1h-1z\" fill=\"#000000\"/></svg>"
    );
}

#[test]
fn qr_svg_renders_scannable_svg() {
    let svg = qr_svg("zkv1test1").unwrap();
    assert!(svg.starts_with("<svg"), "must be an svg document");
    assert!(svg.contains("viewBox=\"0 0 "), "scales via viewBox");
    assert!(svg.contains("<rect"), "has a white quiet-zone background");
    assert!(svg.contains("<path d=\"M"), "has dark-module path data");
    assert!(svg.ends_with("</svg>"));
    assert_eq!(svg, qr_svg("zkv1test1").unwrap());
    assert_ne!(svg, qr_svg("zkv1test2").unwrap());
}

#[test]
fn too_long_a_text_has_no_code() {
    let e = qr_svg(&"x".repeat(5000)).unwrap_err();
    assert!(e.starts_with("encode QR: "), "{e}");
}
