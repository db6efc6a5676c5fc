use lr_cli::yang::{
    base64, parse_model, parse_request, render, xml_escape, BabelConfig, BabelKey, YangModel,
    YangRequest,
};

/// Reads the Babel part of a configuration.
fn parse(toml: &str) -> BabelConfig {
    let mut cfg = BabelConfig {
        port: 6696,
        group: None,
        group_is_address: false,
        keys: vec![],
    };
    for line in toml.lines() {
        if line == "[[babel.key]]" {
            cfg.keys.push(BabelKey {
                secret: None,
                algorithm: None,
            });
        } else if let Some((key, value)) = line.split_once(" = ") {
            let text = value.trim_matches('"').to_string();
            match key {
                "port" => cfg.port = value.parse().expect("a port"),
                "group" => {
                    cfg.group_is_address = text.chars().all(|c| c.is_ascii_digit() || c == '.');
                    cfg.group = Some(text);
                }
                "secret" => cfg.keys.last_mut().expect("a key").secret = Some(text),
                "algorithm" => cfg.keys.last_mut().expect("a key").algorithm = Some(text),
                _ => panic!("unexpected key {key}"),
            }
        }
    }
    cfg
}

const ONE_KEY: &str = "[[babel.key]]\nsecret = \"foobar\"\nalgorithm = \"hmac-sha256\"\n";

#[test]
fn base64_known_answers() {
    assert_eq!(base64(b""), "");
    assert_eq!(base64(b"f"), "Zg==");
    assert_eq!(base64(b"fo"), "Zm8=");
    assert_eq!(base64(b"foobar"), "Zm9vYmFy");
    // RFC 4648 test vectors
    assert_eq!(
        base64(b"any carnal pleasure."),
        "YW55IGNhcm5hbCBwbGVhc3VyZS4="
    );
}

#[test]
fn xml_escapes_metacharacters() {
    assert_eq!(xml_escape("a<b&c>\"d'e"), "a&lt;b&amp;c&gt;&quot;d&apos;e");
}

#[test]
fn babel_view_golden() {
    let cfg = parse("[babel]\nport = 6697\n\n[[babel.key]]\nsecret = \"foobar\"\n");
    let xml = render(&cfg, YangModel::Babel).expect("render");
    assert_eq!(
        xml,
        r#"<routing xmlns="urn:ietf:params:xml:ns:yang:ietf-routing" xmlns:babel="urn:ietf:params:xml:ns:yang:ietf-babel">
  <control-plane-protocols>
    <control-plane-protocol>
      <type>babel:babel</type>
      <name>lr-babel</name>
      <babel xmlns="urn:ietf:params:xml:ns:yang:ietf-babel">
        <enable>true</enable>
        <constants>
          <udp-port>6697</udp-port>
          <mcast-group>ff02::1:6</mcast-group>
        </constants>
        <mac-key-set>
          <name>lr</name>
          <default-apply>true</default-apply>
          <keys>
            <name>key-0</name>
            <use-send>true</use-send>
            <use-verify>true</use-verify>
            <value>Zm9vYmFy</value>
            <algorithm>babel:hmac-sha256</algorithm>
          </keys>
        </mac-key-set>
      </babel>
    </control-plane-protocol>
  </control-plane-protocols>
</routing>
"#
    );
}

#[test]
fn babel_view_without_keys_omits_mac_key_set() {
    let cfg = parse("");
    let xml = render(&cfg, YangModel::Babel).expect("render");
    assert!(!xml.contains("mac-key-set"));
    assert!(xml.contains("<enable>true</enable>"));
    assert!(xml.contains("<udp-port>6696</udp-port>"));
}

#[test]
fn babel_view_renders_blake2s_and_multiple_keys() {
    let cfg = parse(
        "[[babel.key]]\nsecret = \"one\"\n\n\
         [[babel.key]]\nsecret = \"two\"\nalgorithm = \"blake2s\"\n",
    );
    let xml = render(&cfg, YangModel::Babel).expect("render");
    assert!(xml.contains("<name>key-0</name>"));
    assert!(xml.contains("<name>key-1</name>"));
    assert!(xml.contains("<algorithm>babel:blake2s</algorithm>"));
    // base64("one") / base64("two")
    assert!(xml.contains("<value>b25l</value>"));
    assert!(xml.contains("<value>dHdv</value>"));
}

#[test]
fn babel_view_rejects_secretless_key() {
    let cfg = parse("[[babel.key]]\nalgorithm = \"hmac-sha256\"\n");
    assert!(render(&cfg, YangModel::Babel).is_err());
}

#[test]
fn keychain_view_golden() {
    let cfg = parse(ONE_KEY);
    let xml = render(&cfg, YangModel::Keychain).expect("render");
    assert_eq!(
        xml,
        r#"<key-chains xmlns="urn:ietf:params:xml:ns:yang:ietf-key-chain" xmlns:key-chain="urn:ietf:params:xml:ns:yang:ietf-key-chain">
  <key-chain>
    <name>lr-babel</name>
    <key>
      <key-id>0</key-id>
      <crypto-algorithm>key-chain:hmac-sha-256</crypto-algorithm>
      <key-string>
        <keystring>foobar</keystring>
      </key-string>
      <lifetime>
        <send-accept-lifetime>
          <always/>
        </send-accept-lifetime>
      </lifetime>
    </key>
  </key-chain>
</key-chains>
"#
    );
}

#[test]
fn keychain_view_fails_closed_on_blake2s() {
    let cfg = parse("[[babel.key]]\nsecret = \"s\"\nalgorithm = \"blake2s\"\n");
    let err = render(&cfg, YangModel::Keychain).expect_err("must fail");
    assert!(err.contains("blake2s"), "error: {err}");
    // The same config renders fine in the babel view.
    assert!(render(&cfg, YangModel::Babel).is_ok());
}

#[test]
fn keychain_view_empty_without_keys() {
    let cfg = parse("");
    assert_eq!(render(&cfg, YangModel::Keychain).unwrap(), "");
}

#[test]
fn all_view_wraps_in_netconf_config() {
    let cfg = parse(ONE_KEY);
    let xml = render(&cfg, YangModel::All).expect("render");
    assert!(xml.starts_with("<config xmlns:babel=\"urn:ietf:params:xml:ns:yang:ietf-babel\""));
    assert!(xml.contains("urn:ietf:params:xml:ns:yang:ietf-babel"));
    assert!(xml.contains("urn:ietf:params:xml:ns:yang:ietf-key-chain"));
    assert!(xml.ends_with("</config>\n"));
}

#[test]
fn all_view_without_keys_carries_the_babel_envelope() {
    let cfg = parse("");
    let xml = render(&cfg, YangModel::All).expect("render");
    assert!(xml.starts_with("<config xmlns:babel="));
    assert!(xml.contains("</routing>\n</config>\n"));
    // No key-set inside, and no key-chain document at all.
    assert!(!xml.contains("mac-key-set"));
    assert!(!xml.contains("key-chains"));
}

#[test]
fn secrets_are_encoded_and_escaped_per_view() {
    let cfg = parse("[[babel.key]]\nsecret = \"<a&b>\"\n");
    // ietf-babel carries the key as binary: base64 of the raw bytes.
    let babel = render(&cfg, YangModel::Babel).unwrap();
    assert!(babel.contains("<value>PGEmYj4=</value>"));
    // ietf-key-chain carries it as a string: XML-escaped.
    let kc = render(&cfg, YangModel::Keychain).unwrap();
    assert!(kc.contains("&lt;a&amp;b&gt;"));
}

#[test]
fn parse_model_accepts_known_names_only() {
    assert_eq!(parse_model("babel"), Some(YangModel::Babel));
    assert_eq!(parse_model("keychain"), Some(YangModel::Keychain));
    assert_eq!(parse_model("all"), Some(YangModel::All));
    assert_eq!(parse_model("nope"), None);
}

#[test]
fn the_group_is_used_only_if_it_is_an_address() {
    let cfg = parse("group = \"224.0.0.111\"\n");
    let xml = render(&cfg, YangModel::Babel).unwrap();
    assert!(xml.contains("<mcast-group>224.0.0.111</mcast-group>"));
    let cfg = parse("group = \"not-an-address\"\n");
    let xml = render(&cfg, YangModel::Babel).unwrap();
    assert!(xml.contains("<mcast-group>ff02::1:6</mcast-group>"));
}

#[test]
fn unknown_algorithms_are_named() {
    let cfg = parse("[[babel.key]]\nsecret = \"s\"\nalgorithm = \"md5\"\n");
    assert_eq!(
        render(&cfg, YangModel::Babel).unwrap_err(),
        "babel key 0: algorithm 'md5' has no ietf-babel identity"
    );
    let cfg = parse("[[babel.key]]\nsecret = \"s\"\n\n[[babel.key]]\nalgorithm = \"blake2s\"\n");
    assert_eq!(
        render(&cfg, YangModel::All).unwrap_err(),
        "babel key 1: no secret configured"
    );
}

/// The key-chain message speaks of BLAKE2s, whatever the algorithm is.
#[test]
fn keychain_refusals_have_one_text() {
    for algorithm in ["md5", "blake2s"] {
        let cfg = parse(&format!(
            "[[babel.key]]\nsecret = \"s\"\nalgorithm = \"{algorithm}\"\n"
        ));
        assert_eq!(
            render(&cfg, YangModel::Keychain).unwrap_err(),
            "babel key 0: algorithm 'blake2s' has no RFC 8177 crypto-algorithm identity; render it with --model babel"
        );
    }
}

/// The bytes of a base64 text.
fn unbase64(t: &str) -> Vec<u8> {
    let digits = "ABCDEFGHIJKLMNOPQRSTUVWXYZabcdefghijklmnopqrstuvwxyz0123456789+/";
    let mut bytes = Vec::new();
    for four in t.as_bytes().chunks(4) {
        let n = four.iter().fold(0usize, |n, c| {
            n * 64 + digits.find(*c as char).unwrap_or(0)
        });
        let pads = four.iter().filter(|c| **c == b'=').count();
        let three = [(n >> 16) as u8, (n >> 8) as u8, n as u8];
        bytes.extend_from_slice(&three[..3 - pads]);
    }
    bytes
}

#[test]
fn base64_stands_for_its_bytes() {
    for n in 0..40u8 {
        let bytes: Vec<u8> = (0..n).map(|k| k.wrapping_mul(37) ^ n).collect();
        assert_eq!(unbase64(&base64(&bytes)), bytes);
    }
}

#[test]
fn base64_is_four_digits_for_three_bytes() {
    for n in 0..8usize {
        let bytes = vec![0xffu8; n];
        assert_eq!(base64(&bytes).len(), n.div_ceil(3) * 4);
    }
    assert_eq!(base64(&[0xff, 0xff, 0xff]), "////");
    assert_eq!(base64(&[0xfb, 0xef, 0xbe]), "++++");
}

fn args(list: &[&str]) -> Vec<String> {
    list.iter().map(|s| s.to_string()).collect()
}

#[test]
fn yang_arguments() {
    match parse_request(&args(&["render", "a.toml", "--model", "babel"])) {
        YangRequest::Render { path, model } => {
            assert_eq!(path, "a.toml");
            assert_eq!(model, YangModel::Babel);
        }
        _ => panic!("a request to render"),
    }
    assert!(matches!(parse_request(&args(&["--help"])), YangRequest::Help));
    match parse_request(&args(&["a.toml", "--model"])) {
        YangRequest::Refused { message, usage } => {
            assert_eq!(message, "error: --model expects babel|keychain|all");
            assert!(!usage);
        }
        _ => panic!("a refusal"),
    }
    match parse_request(&args(&["a.toml", "b.toml"])) {
        YangRequest::Refused { message, usage } => {
            assert_eq!(message, "error: unexpected argument 'b.toml'");
            assert!(usage);
        }
        _ => panic!("a refusal"),
    }
    match parse_request(&args(&[])) {
        YangRequest::Refused { message, .. } => {
            assert_eq!(message, "error: missing <config.toml>");
        }
        _ => panic!("a refusal"),
    }
}
