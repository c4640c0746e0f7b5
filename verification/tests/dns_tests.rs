use google_ddns::config::{IpSource, Record};
use miniserde::json::{Number, Value};
use google_ddns::dns::{
    base_url, bearer, create_url, pick_ip, plan_update, rrset_body, v4_endpoint, v6_endpoint,
    RrsetLookup, UpdatePlan,
};

fn record(name: &str, ttl: Option<i64>, ip_source: IpSource) -> Record {
    Record { name: name.to_string(), ttl, ip_source }
}

#[test]
fn endpoints() {
    assert_eq!(v4_endpoint(), "https://ipv4.icanhazip.com");
    assert_eq!(v6_endpoint(), "https://ipv6.icanhazip.com");
}

#[test]
fn urls() {
    assert_eq!(
        create_url("proj", "zone"),
        "https://dns.googleapis.com/dns/v1/projects/proj/managedZones/zone/rrsets"
    );
    assert_eq!(
        base_url("proj", "zone", "*.example.com.", "AAAA"),
        "https://dns.googleapis.com/dns/v1/projects/proj/managedZones/zone/rrsets/*.example.com./AAAA"
    );
}

#[test]
fn rrset_body_single_value() {
    assert_eq!(
        rrset_body("ddns.example.com.", "A", 300, &["203.0.113.7".to_string()]),
        r#"{"name":"ddns.example.com.","type":"A","ttl":300,"rrdata":["203.0.113.7"]}"#
    );
}

#[test]
fn rrset_body_escapes_values_and_name() {
    let data = vec![r#"a"b"#.to_string(), r#"c\d"#.to_string()];
    assert_eq!(
        rrset_body(r#"we"ird\."#, "TXT", -1, &data),
        r#"{"name":"we\"ird\.","type":"TXT","ttl":-1,"rrdata":["a\"b","c\\d"]}"#
    );
}

#[test]
fn rrset_body_no_values() {
    assert_eq!(
        rrset_body("x.", "A", 0, &[]),
        r#"{"name":"x.","type":"A","ttl":0,"rrdata":[]}"#
    );
}

#[test]
fn pick_ip_by_source() {
    let v4: Option<&str> = Some("203.0.113.7");
    let v6: Option<&str> = Some("2001:db8::1");
    assert_eq!(pick_ip(&record("a.", None, IpSource::v4), v4, v6), v4);
    assert_eq!(pick_ip(&record("a.", None, IpSource::v6), v4, v6), v6);
    assert_eq!(pick_ip(&record("a.", None, IpSource::v6), v4, None), None);
}

#[test]
fn bearer_header() {
    assert_eq!(bearer("ya29.token"), "Bearer ya29.token");
}

#[test]
fn plan_creates_missing_record() {
    let rec = record("ddns.example.com.", Some(120), IpSource::v4);
    match plan_update("proj", "zone", &rec, &"203.0.113.7".to_string(), &RrsetLookup::NotFound) {
        UpdatePlan::Create { url, body } => {
            assert_eq!(url, "https://dns.googleapis.com/dns/v1/projects/proj/managedZones/zone/rrsets");
            assert_eq!(
                body,
                r#"{"name":"ddns.example.com.","type":"A","ttl":120,"rrdata":["203.0.113.7"]}"#
            );
        }
        _ => panic!("expected a creation"),
    }
}

#[test]
fn plan_leaves_current_record() {
    let rec = record("ddns.example.com.", None, IpSource::v6);
    let lookup = RrsetLookup::Found {
        rrdata: Some(vec!["2001:db8::1".to_string()]),
        ttl: Some(300),
    };
    assert!(matches!(
        plan_update("p", "z", &rec, &"2001:db8::1".to_string(), &lookup),
        UpdatePlan::UpToDate
    ));
}

#[test]
fn plan_patches_changed_record() {
    let rec = record("ddns.example.com.", None, IpSource::v6);
    let lookup = RrsetLookup::Found {
        rrdata: Some(vec!["2001:db8::2".to_string()]),
        ttl: Some(300),
    };
    match plan_update("p", "z", &rec, &"2001:db8::1".to_string(), &lookup) {
        UpdatePlan::Patch { url, body } => {
            assert_eq!(
                url,
                "https://dns.googleapis.com/dns/v1/projects/p/managedZones/z/rrsets/ddns.example.com./AAAA"
            );
            assert_eq!(
                body,
                r#"{"name":"ddns.example.com.","type":"AAAA","ttl":300,"rrdata":["2001:db8::1"]}"#
            );
        }
        _ => panic!("expected a replacement"),
    }
}

#[test]
fn plan_patches_when_ttl_differs_or_values_are_many() {
    let rec = record("a.", Some(60), IpSource::v4);
    let ip = "203.0.113.7".to_string();
    let other_ttl = RrsetLookup::Found { rrdata: Some(vec![ip.clone()]), ttl: Some(300) };
    assert!(matches!(plan_update("p", "z", &rec, &ip, &other_ttl), UpdatePlan::Patch { .. }));
    let two = RrsetLookup::Found { rrdata: Some(vec![ip.clone(), ip.clone()]), ttl: Some(60) };
    assert!(matches!(plan_update("p", "z", &rec, &ip, &two), UpdatePlan::Patch { .. }));
    let empty = RrsetLookup::Found { rrdata: None, ttl: Some(60) };
    assert!(matches!(plan_update("p", "z", &rec, &ip, &empty), UpdatePlan::Patch { .. }));
}

#[test]
fn plan_treats_missing_ttl_as_zero() {
    let ip = "203.0.113.7".to_string();
    let lookup = RrsetLookup::Found { rrdata: Some(vec![ip.clone()]), ttl: None };
    assert!(matches!(
        plan_update("p", "z", &record("a.", Some(0), IpSource::v4), &ip, &lookup),
        UpdatePlan::UpToDate
    ));
    assert!(matches!(
        plan_update("p", "z", &record("a.", None, IpSource::v4), &ip, &lookup),
        UpdatePlan::Patch { .. }
    ));
}

#[test]
fn plan_after_write_is_up_to_date() {
    let rec = record("ddns.example.com.", Some(90), IpSource::v4);
    let ip = "198.51.100.1".to_string();
    assert!(matches!(
        plan_update("p", "z", &rec, &ip, &RrsetLookup::NotFound),
        UpdatePlan::Create { .. }
    ));
    let written = RrsetLookup::Found { rrdata: Some(vec![ip.clone()]), ttl: Some(rec.ttl()) };
    assert!(matches!(plan_update("p", "z", &rec, &ip, &written), UpdatePlan::UpToDate));
}

#[test]
fn unused_family_does_not_change_any_pick() {
    let records = vec![record("a.", None, IpSource::v6), record("*.b.", Some(60), IpSource::v6)];
    let cfg = google_ddns::config::Config {
        credentials_file: "sa.json".to_string(),
        managed_zone: "z".to_string(),
        interval_secs: None,
        records,
    };
    assert!(!cfg.needs_v4());
    for rec in &cfg.records {
        assert_eq!(
            pick_ip(rec, Some("203.0.113.7"), Some("2001:db8::1")),
            pick_ip(rec, None, Some("2001:db8::1"))
        );
    }
}

#[test]
fn rrset_body_parses_back_as_json() {
    let data = vec!["a \"quoted\" \\ value".to_string(), "2001:db8::1".to_string()];
    let body = rrset_body("ddns.example.com.", "TXT", -42, &data);
    let value: Value = miniserde::json::from_str(&body).unwrap();
    let Value::Object(obj) = value else { panic!("not an object") };
    let keys: Vec<&String> = obj.keys().collect();
    assert_eq!(keys.len(), 4);
    match obj.get("name") {
        Some(Value::String(s)) => assert_eq!(s, "ddns.example.com."),
        _ => panic!("name"),
    }
    match obj.get("type") {
        Some(Value::String(s)) => assert_eq!(s, "TXT"),
        _ => panic!("type"),
    }
    match obj.get("ttl") {
        Some(Value::Number(Number::I64(n))) => assert_eq!(*n, -42),
        _ => panic!("ttl"),
    }
    match obj.get("rrdata") {
        Some(Value::Array(items)) => {
            assert_eq!(items.len(), 2);
            for (item, expected) in items.iter().zip(data.iter()) {
                match item {
                    Value::String(s) => assert_eq!(s, expected),
                    _ => panic!("rrdata item"),
                }
            }
        }
        _ => panic!("rrdata"),
    }
}
