//! Cloud DNS requests: endpoints, URLs, request bodies, and the decision of
//! what to do with a record given what the DNS API holds for it.
use vstd::prelude::*;
use crate::config::{IpSource, Record, Config, rtype_of, ttl_of, uses_source};
use crate::text::{quotes_escaped, signed_decimal, escape, escape_quotes, push_char,
    push_signed_decimal};
use crate::json::{quoted, quoted_list, json_string, json_int, json_string_array, no_control, lacks,
    lemma_json_string_quoted, lemma_json_int_decimal, lemma_json_string_array,
    lemma_quotes_escaped_without_backslash, lemma_escaped_plain};

verus! {

/// Where the public IPv4 address is asked for.
pub fn v4_endpoint() -> (r: &'static str)
    ensures
        r@ == "https://ipv4.icanhazip.com"@,
{
    "https://ipv4.icanhazip.com"
}

/// Where the public IPv6 address is asked for.
pub fn v6_endpoint() -> (r: &'static str)
    ensures
        r@ == "https://ipv6.icanhazip.com"@,
{
    "https://ipv6.icanhazip.com"
}

/// The URL of the zone's record sets.
pub open spec fn rrsets_url(project: Seq<char>, zone: Seq<char>) -> Seq<char> {
    "https://dns.googleapis.com/dns/v1/projects/"@ + project + "/managedZones/"@ + zone
        + "/rrsets"@
}

/// The URL of one record set, by name and type.
pub open spec fn rrset_url(project: Seq<char>, zone: Seq<char>, name: Seq<char>, rtype: Seq<char>) -> Seq<char> {
    rrsets_url(project, zone) + "/"@ + name + "/"@ + rtype
}

/// The JSON body that creates or replaces a record set.
pub open spec fn rrset_json(name: Seq<char>, rtype: Seq<char>, ttl: int, rrdata: Seq<Seq<char>>) -> Seq<char> {
    "{\"name\":\""@ + quotes_escaped(name) + "\",\"type\":\""@ + rtype + "\",\"ttl\":"@
        + signed_decimal(ttl) + ",\"rrdata\":["@ + quoted_list(rrdata) + "]}"@
}

/// The texts of a list of strings.
pub open spec fn texts(v: Seq<String>) -> Seq<Seq<char>> {
    v.map_values(|s: String| s@)
}

/// The `Authorization` header value for an access token.
pub open spec fn bearer_text(token: Seq<char>) -> Seq<char> {
    "Bearer "@ + token
}

/// The address a record takes, of the two that were fetched.
pub open spec fn picked<T>(source: IpSource, v4: Option<T>, v6: Option<T>) -> Option<T> {
    match source {
        IpSource::v4 => v4,
        IpSource::v6 => v6,
    }
}

/// What the DNS API holds for a record set.
pub enum RrsetLookup {
    /// The record set exists, with these values and this TTL.
    Found { rrdata: Option<Vec<String>>, ttl: Option<i64> },
    /// The record set does not exist (HTTP 404).
    NotFound,
}

/// What to do with a record set.
pub enum UpdatePlan {
    /// It already holds exactly the address and the TTL: nothing to write.
    UpToDate,
    /// Replace it: PATCH this body to this URL.
    Patch { url: String, body: String },
    /// Create it: POST this body to this URL.
    Create { url: String, body: String },
}

/// The values a found record set holds (none when the field is absent).
pub open spec fn found_rrdata(rrdata: Option<Vec<String>>) -> Seq<Seq<char>> {
    match rrdata {
        Some(v) => texts(v@),
        None => Seq::empty(),
    }
}

/// A found record set is current when it holds exactly the one address and
/// its TTL (0 when absent) is the configured one.
pub open spec fn is_current(rrdata: Seq<Seq<char>>, found_ttl: Option<i64>, ip: Seq<char>, ttl: int) -> bool {
    &&& rrdata.len() == 1
    &&& rrdata[0] == ip
    &&& match found_ttl {
        Some(t) => t as int,
        None => 0,
    } == ttl
}

/// The plan for a record set, given what the API holds for it.
pub open spec fn is_plan_for(
    plan: UpdatePlan,
    project: Seq<char>,
    zone: Seq<char>,
    name: Seq<char>,
    source: IpSource,
    ttl: int,
    ip: Seq<char>,
    lookup: RrsetLookup,
) -> bool {
    let body = rrset_json(name, rtype_of(source), ttl, seq![ip]);
    match lookup {
        RrsetLookup::NotFound => plan matches UpdatePlan::Create { url, body: b } && url@ == rrsets_url(
            project,
            zone,
        ) && b@ == body,
        RrsetLookup::Found { rrdata, ttl: found_ttl } => if is_current(
            found_rrdata(rrdata),
            found_ttl,
            ip,
            ttl,
        ) {
            plan is UpToDate
        } else {
            plan matches UpdatePlan::Patch { url, body: b } && url@ == rrset_url(
                project,
                zone,
                name,
                rtype_of(source),
            ) && b@ == body
        },
    }
}

/// The URL of the zone's record sets, where new ones are created.
pub fn create_url(project: &str, zone: &str) -> (r: String)
    ensures
        r@ == rrsets_url(project@, zone@),
{
    let mut r = String::from_str("https://dns.googleapis.com/dns/v1/projects/");
    r.append(project);
    r.append("/managedZones/");
    r.append(zone);
    r.append("/rrsets");
    r
}

/// The URL of one record set.
pub fn base_url(project: &str, zone: &str, name: &str, rtype: &str) -> (r: String)
    ensures
        r@ == rrset_url(project@, zone@, name@, rtype@),
{
    let mut r = create_url(project, zone);
    r.append("/");
    r.append(name);
    r.append("/");
    r.append(rtype);
    r
}

/// The JSON body of a record set: the name with its double quotes escaped,
/// the type and TTL as they are, and each value as an escaped JSON string.
pub fn rrset_body(name: &str, rtype: &str, ttl: i64, rrdata: &[String]) -> (r: String)
    ensures
        r@ == rrset_json(name@, rtype@, ttl as int, texts(rrdata@)),
{
    let mut data = String::new();
    let n = rrdata.len();
    for i in 0..n
        invariant
            n == rrdata@.len(),
            data@ == quoted_list(texts(rrdata@.take(i as int))),
    {
        let ghost before = texts(rrdata@.take(i as int));
        let ghost items = texts(rrdata@.take(i + 1));
        assert(items.drop_last() == before);
        assert(items.last() == rrdata@[i as int]@);
        if i > 0 {
            push_char(&mut data, ',');
        }
        push_char(&mut data, '"');
        let e = escape(rrdata[i].as_str());
        data.append(e.as_str());
        push_char(&mut data, '"');
        proof {
            if i == 0 {
                assert(before == Seq::<Seq<char>>::empty());
                assert(data@ == quoted(items[0]));
            } else {
                assert(data@ == quoted_list(before) + seq![','] + quoted(items.last()));
            }
        }
    }
    assert(rrdata@.take(n as int) == rrdata@);
    let mut r = String::from_str("{\"name\":\"");
    let escaped_name = escape_quotes(name);
    r.append(escaped_name.as_str());
    r.append("\",\"type\":\"");
    r.append(rtype);
    r.append("\",\"ttl\":");
    push_signed_decimal(&mut r, ttl);
    r.append(",\"rrdata\":[");
    r.append(data.as_str());
    r.append("]}");
    r
}

/// The `Authorization` header value (`Bearer <token>`).
pub fn bearer(token: &str) -> (r: String)
    ensures
        r@ == bearer_text(token@),
{
    let mut r = String::from_str("Bearer ");
    r.append(token);
    r
}

/// The address a record takes: the IPv4 one for a `v4` source, the IPv6
/// one for `v6`.
pub fn pick_ip<T>(rec: &Record, v4: Option<T>, v6: Option<T>) -> (r: Option<T>)
    ensures
        r == picked(rec.ip_source, v4, v6),
{
    match rec.ip_source {
        IpSource::v4 => v4,
        IpSource::v6 => v6,
    }
}

/// Decides what to do with a record: nothing when the API already holds
/// exactly `ip` with the record's TTL, a replacement when it holds something
/// else, and a creation when it holds nothing.
pub fn plan_update(project: &str, zone: &str, rec: &Record, ip: &String, lookup: &RrsetLookup) -> (r: UpdatePlan)
    ensures
        is_plan_for(r, project@, zone@, rec.name@, rec.ip_source, ttl_of(rec.ttl), ip@, *lookup),
{
    let rtype = rec.rtype();
    let ttl = rec.ttl();
    let rrdata = vec![ip.clone()];
    assert(texts(rrdata@) == seq![ip@]);
    match lookup {
        RrsetLookup::Found { rrdata: found, ttl: found_ttl } => {
            let cur_ttl = match found_ttl {
                Some(t) => *t,
                None => 0,
            };
            let current = match found {
                Some(cur) => cur.len() == 1 && cur[0] == *ip && cur_ttl == ttl,
                None => false,
            };
            if current {
                UpdatePlan::UpToDate
            } else {
                let url = base_url(project, zone, rec.name.as_str(), rtype);
                let body = rrset_body(rec.name.as_str(), rtype, ttl, rrdata.as_slice());
                UpdatePlan::Patch { url, body }
            }
        },
        RrsetLookup::NotFound => {
            let url = create_url(project, zone);
            let body = rrset_body(rec.name.as_str(), rtype, ttl, rrdata.as_slice());
            UpdatePlan::Create { url, body }
        },
    }
}

/// Once a record set holds what was last written for it (the one address
/// and the record's TTL), it is current, so the next round writes nothing.
pub proof fn lemma_written_record_is_current(ip: Seq<char>, ttl: i64)
    ensures
        is_current(seq![ip], Some(ttl), ip, ttl as int),
{
}

/// Whether `s` starts with `prefix`.
pub open spec fn starts_with(s: Seq<char>, prefix: Seq<char>) -> bool {
    prefix.len() <= s.len() && s.take(prefix.len() as int) == prefix
}

/// Reads a record-set body: a JSON object with the members `name`, `type`
/// (strings), `ttl` (an integer) and `rrdata` (an array of strings), in
/// that order and without white space. Gives the four values.
pub open spec fn read_rrset_json(s: Seq<char>) -> Option<(Seq<char>, Seq<char>, int, Seq<Seq<char>>)> {
    let k1 = "{\"name\":"@;
    let k2 = ",\"type\":"@;
    let k3 = ",\"ttl\":"@;
    let k4 = ",\"rrdata\":"@;
    if !starts_with(s, k1) {
        None
    } else {
        match json_string(s.skip(k1.len() as int)) {
            None => None,
            Some((name, r1)) => if !starts_with(r1, k2) {
                None
            } else {
                match json_string(r1.skip(k2.len() as int)) {
                    None => None,
                    Some((rtype, r2)) => if !starts_with(r2, k3) {
                        None
                    } else {
                        match json_int(r2.skip(k3.len() as int)) {
                            None => None,
                            Some((ttl, r3)) => if !starts_with(r3, k4) {
                                None
                            } else {
                                match json_string_array(r3.skip(k4.len() as int)) {
                                    None => None,
                                    Some((rrdata, r4)) => if r4 == "}"@ {
                                        Some((name, rtype, ttl, rrdata))
                                    } else {
                                        None
                                    },
                                }
                            },
                        }
                    },
                }
            },
        }
    }
}

/// `prefix + rest` starts with `prefix`, and reading past it leaves `rest`.
proof fn lemma_skip_prefix(prefix: Seq<char>, rest: Seq<char>)
    ensures
        starts_with(prefix + rest, prefix),
        (prefix + rest).skip(prefix.len() as int) == rest,
{
    assert((prefix + rest).take(prefix.len() as int) =~= prefix);
    assert((prefix + rest).skip(prefix.len() as int) =~= rest);
}

/// A record-set body reads back as JSON with the name, type, TTL and values
/// it was written from, when the name has no backslash, the type no quote or
/// backslash, and none of them (nor any value) a control character. (The
/// name has only its quotes escaped, so a backslash in it would be read as
/// an escape.)
pub proof fn lemma_rrset_body_reads_back(name: Seq<char>, rtype: Seq<char>, ttl: int, rrdata: Seq<Seq<char>>)
    requires
        no_control(name),
        lacks(name, '\\'),
        no_control(rtype),
        lacks(rtype, '\\'),
        lacks(rtype, '"'),
        forall|i: int| 0 <= i < rrdata.len() ==> no_control(#[trigger] rrdata[i]),
    ensures
        read_rrset_json(rrset_json(name, rtype, ttl, rrdata)) == Some((name, rtype, ttl, rrdata)),
{
    reveal_strlit("{\"name\":");
    reveal_strlit(",\"type\":");
    reveal_strlit(",\"ttl\":");
    reveal_strlit(",\"rrdata\":");
    reveal_strlit("}");
    reveal_strlit("{\"name\":\"");
    reveal_strlit("\",\"type\":\"");
    reveal_strlit("\",\"ttl\":");
    reveal_strlit(",\"rrdata\":[");
    reveal_strlit("]}");
    let k1 = "{\"name\":"@;
    let k2 = ",\"type\":"@;
    let k3 = ",\"ttl\":"@;
    let k4 = ",\"rrdata\":"@;
    let k5 = "}"@;
    assert("{\"name\":\""@ =~= k1 + seq!['"']);
    assert("\",\"type\":\""@ =~= seq!['"'] + k2 + seq!['"']);
    assert("\",\"ttl\":"@ =~= seq!['"'] + k3);
    assert(",\"rrdata\":["@ =~= k4 + seq!['[']);
    assert("]}"@ =~= seq![']'] + k5);
    lemma_quotes_escaped_without_backslash(name);
    lemma_escaped_plain(rtype);
    let x4 = seq!['['] + quoted_list(rrdata) + seq![']'] + k5;
    let x3 = signed_decimal(ttl) + (k4 + x4);
    let x2 = quoted(rtype) + (k3 + x3);
    let x1 = quoted(name) + (k2 + x2);
    assert(rrset_json(name, rtype, ttl, rrdata) =~= k1 + x1);
    lemma_skip_prefix(k1, x1);
    lemma_json_string_quoted(name, k2 + x2);
    lemma_skip_prefix(k2, x2);
    lemma_json_string_quoted(rtype, k3 + x3);
    lemma_skip_prefix(k3, x3);
    assert((k4 + x4)[0] == ',');
    lemma_json_int_decimal(ttl, k4 + x4);
    lemma_skip_prefix(k4, x4);
    lemma_json_string_array(rrdata, k5);
}

/// Only the address families that some record uses need fetching: when no
/// record takes its address from IPv4, every record picks the same address
/// whether an IPv4 address was fetched or not (and likewise for IPv6).
pub proof fn lemma_unused_source_not_needed<T>(cfg: Config, v4: Option<T>, v6: Option<T>)
    ensures
        !uses_source(cfg.records@, IpSource::v4) ==> forall|i: int|
            0 <= i < cfg.records@.len() ==> picked(#[trigger] cfg.records@[i].ip_source, v4, v6)
                == picked(cfg.records@[i].ip_source, None::<T>, v6),
        !uses_source(cfg.records@, IpSource::v6) ==> forall|i: int|
            0 <= i < cfg.records@.len() ==> picked(#[trigger] cfg.records@[i].ip_source, v4, v6)
                == picked(cfg.records@[i].ip_source, v4, None::<T>),
{
    assert forall|i: int| 0 <= i < cfg.records@.len() && !uses_source(cfg.records@, IpSource::v4)
        implies picked(#[trigger] cfg.records@[i].ip_source, v4, v6) == picked(
        cfg.records@[i].ip_source,
        None::<T>,
        v6,
    ) by {
        assert(cfg.records@[i].ip_source != IpSource::v4);
    }
    assert forall|i: int| 0 <= i < cfg.records@.len() && !uses_source(cfg.records@, IpSource::v6)
        implies picked(#[trigger] cfg.records@[i].ip_source, v4, v6) == picked(
        cfg.records@[i].ip_source,
        v4,
        None::<T>,
    ) by {
        assert(cfg.records@[i].ip_source != IpSource::v6);
    }
}

/// The record types written contain no character that JSON would need
/// escaped.
proof fn lemma_rtype_plain(source: IpSource)
    ensures
        no_control(rtype_of(source)),
        lacks(rtype_of(source), '\\'),
        lacks(rtype_of(source), '"'),
{
    reveal_strlit("A");
    reveal_strlit("AAAA");
}

/// What a plan writes and what it leaves alone go by the record's own TTL:
/// the configured one whenever one is given, 300 seconds only when none is.
/// A written body reads back as JSON with the record's name and type, that
/// TTL and the one address; a found record set is left alone exactly when it
/// holds that one address with that TTL (a missing TTL counting as 0).
pub proof fn lemma_plan_honours_ttl(
    plan: UpdatePlan,
    project: Seq<char>,
    zone: Seq<char>,
    rec: Record,
    ip: Seq<char>,
    lookup: RrsetLookup,
)
    requires
        is_plan_for(plan, project, zone, rec.name@, rec.ip_source, ttl_of(rec.ttl), ip, lookup),
        no_control(rec.name@),
        lacks(rec.name@, '\\'),
        no_control(ip),
    ensures
        ({
            let want: int = match rec.ttl {
                Some(t) => t as int,
                None => 300,
            };
            &&& (plan matches UpdatePlan::Create { body, .. } ==> read_rrset_json(body@) == Some(
                (rec.name@, rtype_of(rec.ip_source), want, seq![ip]),
            ))
            &&& (plan matches UpdatePlan::Patch { body, .. } ==> read_rrset_json(body@) == Some(
                (rec.name@, rtype_of(rec.ip_source), want, seq![ip]),
            ))
            &&& (lookup matches RrsetLookup::Found { rrdata, ttl } ==> (plan is UpToDate <==> (
            found_rrdata(rrdata) == seq![ip] && match ttl {
                Some(f) => f as int,
                None => 0,
            } == want)))
            &&& (lookup is NotFound ==> plan is Create)
        }),
{
    lemma_rtype_plain(rec.ip_source);
    let ips = seq![ip];
    assert forall|i: int| 0 <= i < ips.len() implies no_control(#[trigger] ips[i]) by {
        assert(ips[i] == ip);
    }
    lemma_rrset_body_reads_back(rec.name@, rtype_of(rec.ip_source), ttl_of(rec.ttl), ips);
    if let RrsetLookup::Found { rrdata, ttl } = lookup {
        let found = found_rrdata(rrdata);
        if found.len() == 1 && found[0] == ip {
            assert(found =~= seq![ip]);
        }
    }
}

} // verus!
