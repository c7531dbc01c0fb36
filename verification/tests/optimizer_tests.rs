use svgn::config::DataUriFormat;
use svgn::optimizer::{apply_datauri_encoding, cli_datauri, final_output, frame_datauri, is_last_pass, url_encode};

#[test]
fn test_datauri_encoding() {
    let svg = "<svg></svg>";

    let base64_result = apply_datauri_encoding(svg, &DataUriFormat::Base64);
    assert!(base64_result.starts_with("data:image/svg+xml;base64,"));

    let enc_result = apply_datauri_encoding(svg, &DataUriFormat::Enc);
    assert!(enc_result.starts_with("data:image/svg+xml,"));

    let unenc_result = apply_datauri_encoding(svg, &DataUriFormat::Unenc);
    assert!(unenc_result.starts_with("data:image/svg+xml,"));
}

#[test]
fn test_url_encode_exact() {
    assert_eq!(url_encode("<svg a=\"#b c\">"), "%3Csvg%20a=%22%23b%20c%22%3E");
    assert_eq!(apply_datauri_encoding("<a/>", &DataUriFormat::Enc), "data:image/svg+xml,%3Ca/%3E");
    assert_eq!(apply_datauri_encoding("<a/>", &DataUriFormat::Unenc), "data:image/svg+xml,<a/>");
}

#[test]
fn test_last_pass() {
    assert!(is_last_pass(false, "a", "b", 1));
    assert!(is_last_pass(true, "a", "a", 1));
    assert!(!is_last_pass(true, "a", "b", 9));
    assert!(is_last_pass(true, "a", "b", 10));
    assert_eq!(final_output("x".to_string(), &None), "x");
    assert_eq!(final_output("<".to_string(), &Some(DataUriFormat::Enc)), "data:image/svg+xml,%3C");
}

#[test]
fn cli_datauri_kinds() {
    assert_eq!(cli_datauri("<svg/>", "base64"), Some("data:image/svg+xml;base64,PHN2Zy8+".to_string()));
    assert_eq!(cli_datauri("<svg a>", "enc"), Some("data:image/svg+xml;charset=utf-8,%3Csvg%20a%3E".to_string()));
    assert_eq!(cli_datauri("<svg a>", "unenc"), Some("data:image/svg+xml;charset=utf-8,<svg a>".to_string()));
    assert_eq!(cli_datauri("<svg/>", "hex"), None);
    assert_eq!(cli_datauri("", "base64"), Some("data:image/svg+xml;base64,".to_string()));
}

#[test]
fn frame_datauri_prefixes() {
    assert_eq!(frame_datauri("base64", "QQ=="), Some("data:image/svg+xml;base64,QQ==".to_string()));
    assert_eq!(frame_datauri("enc", "a%20b"), Some("data:image/svg+xml;charset=utf-8,a%20b".to_string()));
    assert_eq!(frame_datauri("Base64", "x"), None);
}

#[test]
fn base64_data_uri_is_encoded() {
    assert_eq!(svgn::optimizer::base64_encode("<svg></svg>"), "PHN2Zz48L3N2Zz4=");
    assert_eq!(
        apply_datauri_encoding("<svg></svg>", &DataUriFormat::Base64),
        "data:image/svg+xml;base64,PHN2Zz48L3N2Zz4="
    );
    assert_eq!(final_output("<svg/>".to_string(), &Some(DataUriFormat::Base64)), "data:image/svg+xml;base64,PHN2Zy8+");
}

#[test]
fn url_encode_escapes_markup() {
    assert_eq!(url_encode("<svg></svg>"), "%3Csvg%3E%3C/svg%3E");
}
