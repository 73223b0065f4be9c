//! Routing engine: exact-domain, wildcard-suffix, CIDR and GeoIP rules,
//! compiled once from the configuration and evaluated in declared order
//! with first-match semantics.

use vstd::prelude::*;
use vstd::string::StringSliceAdditionalSpecFns;
use vstd::utf8::encode_utf8;
use crate::config::RoutingConfig;
use crate::config::RoutingRule;
use crate::iptext::spec_parse_ipv4;
use crate::iptext::spec_parse_ipv6;
use crate::iptext::parse_ipv4;
use crate::iptext::parse_ipv6;
use crate::iptext::parse_decimal;
use crate::iptext::spec_parse_decimal;
use crate::protocol::IpAddress;
use crate::util::copy_range;
use crate::util::ends_with;
use crate::util::lower_bytes;
use crate::util::slice_eq;
use crate::util::spec_ends_with;
use crate::util::to_lower_bytes;
use crate::util::to_upper_bytes;
use crate::util::upper_bytes;
use crate::util::views_of;

verus! {

// ── Actions ─────────────────────────────────────────────────────────

/// What to do with a flow: tunnel it or connect directly.
#[derive(Debug, Clone, Copy, PartialEq, Eq, Structural)]
pub enum Action {
    Proxy,
    Direct,
}

/// The action a configuration word (as UTF-8 bytes) names: `proxy`, or
/// `Direct` for anything else.
pub open spec fn spec_action_of(b: Seq<u8>) -> Action {
    if b == "proxy".spec_bytes() {
        Action::Proxy
    } else {
        Action::Direct
    }
}

impl Action {
    /// Parse a configured action word.
    pub fn from_str(s: &str) -> (r: Action)
        ensures
            r == spec_action_of(s.spec_bytes()),
    {
        if slice_eq(s.as_bytes(), "proxy".as_bytes()) {
            Action::Proxy
        } else {
            Action::Direct
        }
    }
}

// ── CIDR ranges ─────────────────────────────────────────────────────

/// A parsed CIDR range: the masked base address and the mask itself.
#[derive(Debug, Clone, Copy, PartialEq, Eq, Structural)]
pub enum CidrRange {
    V4 { addr: u32, mask: u32 },
    V6 { addr: u128, mask: u128 },
}

/// The IPv4 mask of a prefix length: the top `p` bits.
pub open spec fn mask4(p: nat) -> u32
    recommends
        p <= 32,
{
    if p == 0 {
        0
    } else {
        0xFFFF_FFFFu32 << ((32 - p) as u32)
    }
}

/// The IPv6 mask of a prefix length: the top `p` bits.
pub open spec fn mask6(p: nat) -> u128
    recommends
        p <= 128,
{
    if p == 0 {
        0
    } else {
        0xFFFF_FFFF_FFFF_FFFF_FFFF_FFFF_FFFF_FFFFu128 << ((128 - p) as u128)
    }
}

/// The first `/` in `s`, or its length.
pub open spec fn find_slash(s: Seq<u8>, pos: int) -> int
    decreases s.len() - pos,
{
    if pos < 0 || pos >= s.len() {
        s.len() as int
    } else if s[pos] == 47 {
        pos
    } else {
        find_slash(s, pos + 1)
    }
}

/// Parse `base/prefix`: the base address in its family's text form, a
/// decimal prefix length within the family's width. The stored base is
/// already masked.
pub open spec fn spec_parse_cidr(s: Seq<u8>) -> Option<CidrRange> {
    let k = find_slash(s, 0);
    if k == s.len() {
        None
    } else {
        let ip = s.take(k);
        let pre = s.subrange(k + 1, s.len() as int);
        match spec_parse_decimal(pre) {
            None => None,
            Some(p) => match spec_parse_ipv4(ip) {
                Some(a) => if p > 32 {
                    None
                } else {
                    Some(CidrRange::V4 { addr: a & mask4(p as nat), mask: mask4(p as nat) })
                },
                None => match spec_parse_ipv6(ip) {
                    Some(a) => if p > 128 {
                        None
                    } else {
                        Some(CidrRange::V6 { addr: a & mask6(p as nat), mask: mask6(p as nat) })
                    },
                    None => None,
                },
            },
        }
    }
}

/// Whether an address falls in a range; families never cross-match.
pub open spec fn spec_cidr_contains(c: CidrRange, ip: IpAddress) -> bool {
    match (c, ip) {
        (CidrRange::V4 { addr, mask }, IpAddress::V4(v)) => (v & mask) == addr,
        (CidrRange::V6 { addr, mask }, IpAddress::V6(v)) => (v & mask) == addr,
        _ => false,
    }
}

/// The first `/` at or after `pos`.
fn find_slash_x(s: &[u8], pos: usize) -> (r: usize)
    requires
        pos <= s@.len(),
    ensures
        r == find_slash(s@, pos as int),
        pos <= r <= s@.len(),
    decreases s@.len() - pos,
{
    if pos >= s.len() {
        s.len()
    } else if s[pos] == 47 {
        pos
    } else {
        find_slash_x(s, pos + 1)
    }
}

impl CidrRange {
    /// Parse a textual CIDR range.
    pub fn parse(s: &[u8]) -> (r: Option<CidrRange>)
        ensures
            r == spec_parse_cidr(s@),
    {
        let k = find_slash_x(s, 0);
        if k == s.len() {
            return None;
        }
        let ip = copy_range(s, 0, k);
        let pre = copy_range(s, k + 1, s.len());
        proof {
            assert(ip@ =~= s@.take(k as int));
            assert(pre@ =~= s@.subrange(k as int + 1, s@.len() as int));
        }
        let p: u32 = match parse_decimal(pre.as_slice()) {
            None => {
                return None;
            },
            Some(p) => p,
        };
        match parse_ipv4(ip.as_slice()) {
            Some(a) => {
                if p > 32 {
                    None
                } else {
                    let mask: u32 = if p == 0 {
                        0
                    } else {
                        0xFFFF_FFFFu32 << ((32 - p) as u32)
                    };
                    Some(CidrRange::V4 { addr: a & mask, mask })
                }
            },
            None => {
                match parse_ipv6(ip.as_slice()) {
                    Some(a) => {
                        if p > 128 {
                            None
                        } else {
                            let mask: u128 = if p == 0 {
                                0
                            } else {
                                0xFFFF_FFFF_FFFF_FFFF_FFFF_FFFF_FFFF_FFFFu128 << ((128 - p) as u128)
                            };
                            Some(CidrRange::V6 { addr: a & mask, mask })
                        }
                    },
                    None => None,
                }
            },
        }
    }

    /// Whether `ip` falls in this range.
    pub fn contains(&self, ip: &IpAddress) -> (r: bool)
        ensures
            r == spec_cidr_contains(*self, *ip),
    {
        match (self, ip) {
            (CidrRange::V4 { addr, mask }, IpAddress::V4(v)) => (*v & *mask) == *addr,
            (CidrRange::V6 { addr, mask }, IpAddress::V6(v)) => (*v & *mask) == *addr,
            _ => false,
        }
    }
}

// ── Compiled rules ──────────────────────────────────────────────────

/// One routing rule, compiled for fast matching.
#[derive(Debug)]
pub struct CompiledRule {
    pub action: Action,
    /// Exact host names, lowercased.
    pub exact_domains: Vec<Vec<u8>>,
    /// Wildcard suffixes: `*.example.org` is held as `.example.org`.
    pub wildcard_suffixes: Vec<Vec<u8>>,
    pub ip_ranges: Vec<CidrRange>,
    /// Country codes, uppercased.
    pub geoip_codes: Vec<Vec<u8>>,
}

/// The exact (non-wildcard) domains of a rule, lowercased, in order.
pub open spec fn exact_of(ds: Seq<Seq<char>>) -> Seq<Seq<u8>>
    decreases ds.len(),
{
    if ds.len() == 0 {
        Seq::empty()
    } else {
        let rest = exact_of(ds.drop_last());
        let d = lower_bytes(encode_utf8(ds.last()));
        if d.len() > 0 && d[0] == 42 {
            rest
        } else {
            rest.push(d)
        }
    }
}

/// The wildcard suffixes of a rule: what follows the `*`, lowercased.
pub open spec fn wild_of(ds: Seq<Seq<char>>) -> Seq<Seq<u8>>
    decreases ds.len(),
{
    if ds.len() == 0 {
        Seq::empty()
    } else {
        let rest = wild_of(ds.drop_last());
        let d = lower_bytes(encode_utf8(ds.last()));
        if d.len() > 0 && d[0] == 42 {
            rest.push(d.subrange(1, d.len() as int))
        } else {
            rest
        }
    }
}

/// The ranges of a rule that parse; invalid ranges are skipped and do
/// not disturb the others.
pub open spec fn ranges_of(rs: Seq<Seq<char>>) -> Seq<CidrRange>
    decreases rs.len(),
{
    if rs.len() == 0 {
        Seq::empty()
    } else {
        let rest = ranges_of(rs.drop_last());
        match spec_parse_cidr(encode_utf8(rs.last())) {
            Some(c) => rest.push(c),
            None => rest,
        }
    }
}

/// The country codes of a rule, uppercased, in order.
pub open spec fn codes_of(gs: Seq<Seq<char>>) -> Seq<Seq<u8>>
    decreases gs.len(),
{
    if gs.len() == 0 {
        Seq::empty()
    } else {
        codes_of(gs.drop_last()).push(upper_bytes(encode_utf8(gs.last())))
    }
}

/// The character strings a vector of strings holds.
pub open spec fn chars_of(ss: Seq<String>) -> Seq<Seq<char>> {
    Seq::new(ss.len(), |i: int| ss[i]@)
}

/// How a compiled rule relates to its configured form.
pub open spec fn compiled_ok(c: CompiledRule, rr: RoutingRule) -> bool {
    &&& c.action == spec_action_of(encode_utf8(rr.action@))
    &&& views_of(c.exact_domains@) == exact_of(chars_of(rr.domains@))
    &&& views_of(c.wildcard_suffixes@) == wild_of(chars_of(rr.domains@))
    &&& c.ip_ranges@ == ranges_of(chars_of(rr.ip_ranges@))
    &&& views_of(c.geoip_codes@) == codes_of(chars_of(rr.geoip@))
}

/// Compile one configured rule: lowercase and split the domains into
/// exact names and wildcard suffixes, parse the ranges (skipping
/// invalid ones), uppercase the country codes.
pub fn compile_rule(rule: &RoutingRule) -> (r: CompiledRule)
    ensures
        compiled_ok(r, *rule),
{
    let action = Action::from_str(rule.action.as_str());
    let mut exact_domains: Vec<Vec<u8>> = Vec::new();
    let mut wildcard_suffixes: Vec<Vec<u8>> = Vec::new();
    let mut i: usize = 0;
    while i < rule.domains.len()
        invariant
            i <= rule.domains@.len(),
            views_of(exact_domains@) == exact_of(chars_of(rule.domains@).take(i as int)),
            views_of(wildcard_suffixes@) == wild_of(chars_of(rule.domains@).take(i as int)),
        decreases rule.domains@.len() - i,
    {
        let ghost pre = chars_of(rule.domains@).take(i as int);
        proof {
            assert(chars_of(rule.domains@).take(i as int + 1).drop_last() =~= pre);
            assert(chars_of(rule.domains@).take(i as int + 1).last() == rule.domains@[i as int]@);
        }
        let d = to_lower_bytes(rule.domains[i].as_str().as_bytes());
        if d.len() > 0 && d[0] == 42 {
            let suffix = copy_range(d.as_slice(), 1, d.len());
            wildcard_suffixes.push(suffix);
            proof {
                assert(views_of(wildcard_suffixes@) =~= wild_of(
                    chars_of(rule.domains@).take(i as int + 1),
                ));
                assert(views_of(exact_domains@) =~= exact_of(
                    chars_of(rule.domains@).take(i as int + 1),
                ));
            }
        } else {
            exact_domains.push(d);
            proof {
                assert(views_of(exact_domains@) =~= exact_of(
                    chars_of(rule.domains@).take(i as int + 1),
                ));
                assert(views_of(wildcard_suffixes@) =~= wild_of(
                    chars_of(rule.domains@).take(i as int + 1),
                ));
            }
        }
        i = i + 1;
    }
    let mut ip_ranges: Vec<CidrRange> = Vec::new();
    let mut j: usize = 0;
    while j < rule.ip_ranges.len()
        invariant
            j <= rule.ip_ranges@.len(),
            ip_ranges@ == ranges_of(chars_of(rule.ip_ranges@).take(j as int)),
        decreases rule.ip_ranges@.len() - j,
    {
        proof {
            assert(chars_of(rule.ip_ranges@).take(j as int + 1).drop_last() =~= chars_of(
                rule.ip_ranges@,
            ).take(j as int));
            assert(chars_of(rule.ip_ranges@).take(j as int + 1).last() == rule.ip_ranges@[
                j as int]@);
        }
        match CidrRange::parse(rule.ip_ranges[j].as_str().as_bytes()) {
            Some(c) => {
                ip_ranges.push(c);
            },
            None => {
                // An invalid range is diagnostic noise, never a startup failure.
            },
        }
        j = j + 1;
    }
    let mut geoip_codes: Vec<Vec<u8>> = Vec::new();
    let mut k: usize = 0;
    while k < rule.geoip.len()
        invariant
            k <= rule.geoip@.len(),
            views_of(geoip_codes@) == codes_of(chars_of(rule.geoip@).take(k as int)),
        decreases rule.geoip@.len() - k,
    {
        proof {
            assert(chars_of(rule.geoip@).take(k as int + 1).drop_last() =~= chars_of(rule.geoip@)
                .take(k as int));
            assert(chars_of(rule.geoip@).take(k as int + 1).last() == rule.geoip@[k as int]@);
        }
        let code = to_upper_bytes(rule.geoip[k].as_str().as_bytes());
        geoip_codes.push(code);
        proof {
            assert(views_of(geoip_codes@) =~= codes_of(chars_of(rule.geoip@).take(k as int + 1)));
        }
        k = k + 1;
    }
    proof {
        assert(chars_of(rule.domains@).take(rule.domains@.len() as int) =~= chars_of(rule.domains@));
        assert(chars_of(rule.ip_ranges@).take(rule.ip_ranges@.len() as int) =~= chars_of(
            rule.ip_ranges@,
        ));
        assert(chars_of(rule.geoip@).take(rule.geoip@.len() as int) =~= chars_of(rule.geoip@));
    }
    CompiledRule { action, exact_domains, wildcard_suffixes, ip_ranges, geoip_codes }
}

// ── The router ──────────────────────────────────────────────────────

/// The routing engine: compiled rules in declared order, and the action
/// when none matches.
pub struct Router {
    pub rules: Vec<CompiledRule>,
    pub default_action: Action,
}

/// The view of an optional borrowed byte string.
pub open spec fn opt_view(o: Option<&[u8]>) -> Option<Seq<u8>> {
    match o {
        Some(b) => Some(b@),
        None => None,
    }
}

/// Whether `h` is one of the byte strings in `ds`.
pub open spec fn domain_in(ds: Seq<Seq<u8>>, h: Seq<u8>) -> bool {
    exists|i: int| 0 <= i < ds.len() && ds[i] == h
}

/// Whether a wildcard suffix matches `h`: `h` ends with the suffix, or
/// equals the suffix without its leading dot (`*.x` matches `x` itself).
pub open spec fn wildcard_match(ws: Seq<Seq<u8>>, h: Seq<u8>) -> bool {
    exists|i: int|
        0 <= i < ws.len() && (spec_ends_with(h, ws[i]) || (ws[i].len() >= 1 && h == ws[i].subrange(
            1,
            ws[i].len() as int,
        )))
}

/// Whether any range contains `ip`.
pub open spec fn cidr_any(rs: Seq<CidrRange>, ip: IpAddress) -> bool {
    exists|i: int| 0 <= i < rs.len() && spec_cidr_contains(rs[i], ip)
}

/// Whether the rule names countries and the flow's country is one of
/// them, compared case-insensitively.
pub open spec fn geoip_match(cs: Seq<Seq<u8>>, country: Option<Seq<u8>>) -> bool {
    match country {
        Some(c) => cs.len() > 0 && (exists|i: int| 0 <= i < cs.len() && cs[i] == upper_bytes(c)),
        None => false,
    }
}

/// Whether the flow's host name matches the rule's domains, exactly or
/// by wildcard suffix.
pub open spec fn sni_match(r: CompiledRule, sni: Option<Seq<u8>>) -> bool {
    match sni {
        Some(h) => domain_in(views_of(r.exact_domains@), lower_bytes(h)) || wildcard_match(
            views_of(r.wildcard_suffixes@),
            lower_bytes(h),
        ),
        None => false,
    }
}

/// Whether one compiled rule matches a flow.
pub open spec fn rule_matches(
    r: CompiledRule,
    sni: Option<Seq<u8>>,
    ip: IpAddress,
    country: Option<Seq<u8>>,
) -> bool {
    ||| sni_match(r, sni)
    ||| cidr_any(r.ip_ranges@, ip)
    ||| geoip_match(views_of(r.geoip_codes@), country)
}

/// First-match evaluation: the action of the first rule that matches,
/// or the default.
pub open spec fn resolve_spec(
    rules: Seq<CompiledRule>,
    default: Action,
    sni: Option<Seq<u8>>,
    ip: IpAddress,
    country: Option<Seq<u8>>,
) -> Action
    decreases rules.len(),
{
    if rules.len() == 0 {
        default
    } else if rule_matches(rules[0], sni, ip, country) {
        rules[0].action
    } else {
        resolve_spec(rules.skip(1), default, sni, ip, country)
    }
}

/// First-match precedence: when rule `i` matches and no earlier rule
/// does, the resolved action is rule `i`'s, whatever the rules after it
/// say.
pub proof fn lemma_first_match_wins(
    rules: Seq<CompiledRule>,
    default: Action,
    sni: Option<Seq<u8>>,
    ip: IpAddress,
    country: Option<Seq<u8>>,
    i: int,
)
    requires
        0 <= i < rules.len(),
        rule_matches(rules[i], sni, ip, country),
        forall|k: int| 0 <= k < i ==> !rule_matches(#[trigger] rules[k], sni, ip, country),
    ensures
        resolve_spec(rules, default, sni, ip, country) == rules[i].action,
    decreases i,
{
    if i > 0 {
        lemma_first_match_wins(rules.skip(1), default, sni, ip, country, i - 1);
    }
}

/// When no rule matches, the default action is resolved.
pub proof fn lemma_no_match_uses_default(
    rules: Seq<CompiledRule>,
    default: Action,
    sni: Option<Seq<u8>>,
    ip: IpAddress,
    country: Option<Seq<u8>>,
)
    requires
        forall|k: int| 0 <= k < rules.len() ==> !rule_matches(#[trigger] rules[k], sni, ip, country),
    ensures
        resolve_spec(rules, default, sni, ip, country) == default,
    decreases rules.len(),
{
    if rules.len() > 0 {
        lemma_no_match_uses_default(rules.skip(1), default, sni, ip, country);
    }
}

/// An invalid range is skipped silently: compiling a rule whose range
/// list carries an unparsable entry yields the same ranges as without
/// that entry, so the other rules and ranges are untouched.
pub proof fn lemma_invalid_range_skipped(rs: Seq<Seq<char>>, i: int)
    requires
        0 <= i < rs.len(),
        spec_parse_cidr(encode_utf8(rs[i])) is None,
    ensures
        ranges_of(rs) == ranges_of(rs.remove(i)),
    decreases rs.len(),
{
    if i == rs.len() - 1 {
        assert(rs.remove(i) =~= rs.drop_last());
    } else {
        assert(rs.remove(i).drop_last() =~= rs.drop_last().remove(i));
        assert(rs.remove(i).last() == rs.last());
        lemma_invalid_range_skipped(rs.drop_last(), i);
    }
}

/// Whether one compiled rule matches the flow's host name, destination
/// address and country.
pub fn matches_rule(
    rule: &CompiledRule,
    sni: Option<&[u8]>,
    dest_ip: &IpAddress,
    country: Option<&[u8]>,
) -> (r: bool)
    ensures
        r == rule_matches(*rule, opt_view(sni), *dest_ip, opt_view(country)),
{
    match sni {
        Some(h) => {
            let hl = to_lower_bytes(h);
            let mut i: usize = 0;
            while i < rule.exact_domains.len()
                invariant
                    opt_view(sni) == Some(h@),
                    i <= rule.exact_domains@.len(),
                    hl@ == lower_bytes(h@),
                    forall|k: int|
                        0 <= k < i ==> #[trigger] views_of(rule.exact_domains@)[k] != lower_bytes(
                            h@,
                        ),
                decreases rule.exact_domains@.len() - i,
            {
                if slice_eq(rule.exact_domains[i].as_slice(), hl.as_slice()) {
                    proof {
                        assert(views_of(rule.exact_domains@)[i as int] == lower_bytes(h@));
                        assert(domain_in(views_of(rule.exact_domains@), lower_bytes(h@)));
                        assert(sni_match(*rule, opt_view(sni)));
                    }
                    return true;
                }
                i = i + 1;
            }
            let mut j: usize = 0;
            while j < rule.wildcard_suffixes.len()
                invariant
                    opt_view(sni) == Some(h@),
                    j <= rule.wildcard_suffixes@.len(),
                    hl@ == lower_bytes(h@),
                    forall|k: int|
                        0 <= k < j ==> {
                            let w = #[trigger] views_of(rule.wildcard_suffixes@)[k];
                            !(spec_ends_with(lower_bytes(h@), w) || (w.len() >= 1 && lower_bytes(
                                h@,
                            ) == w.subrange(1, w.len() as int)))
                        },
                decreases rule.wildcard_suffixes@.len() - j,
            {
                let w = &rule.wildcard_suffixes[j];
                if ends_with(hl.as_slice(), w.as_slice()) {
                    proof {
                        assert(spec_ends_with(
                            lower_bytes(h@),
                            views_of(rule.wildcard_suffixes@)[j as int],
                        ));
                        assert(wildcard_match(
                            views_of(rule.wildcard_suffixes@),
                            lower_bytes(h@),
                        ));
                    }
                    return true;
                }
                if w.len() >= 1 {
                    let tail = copy_range(w.as_slice(), 1, w.len());
                    if slice_eq(hl.as_slice(), tail.as_slice()) {
                        proof {
                            let ws = views_of(rule.wildcard_suffixes@);
                            assert(ws[j as int].len() >= 1 && lower_bytes(h@) == ws[
                                j as int].subrange(1, ws[j as int].len() as int));
                            assert(wildcard_match(ws, lower_bytes(h@)));
                        }
                        return true;
                    }
                }
                j = j + 1;
            }
        },
        None => {},
    }
    let mut i: usize = 0;
    while i < rule.ip_ranges.len()
        invariant
            i <= rule.ip_ranges@.len(),
            forall|k: int| 0 <= k < i ==> !spec_cidr_contains(rule.ip_ranges@[k], *dest_ip),
        decreases rule.ip_ranges@.len() - i,
    {
        if rule.ip_ranges[i].contains(dest_ip) {
            proof {
                assert(spec_cidr_contains(rule.ip_ranges@[i as int], *dest_ip));
                assert(cidr_any(rule.ip_ranges@, *dest_ip));
            }
            return true;
        }
        i = i + 1;
    }
    if rule.geoip_codes.len() > 0 {
        match country {
            Some(c) => {
                let cu = to_upper_bytes(c);
                let mut i: usize = 0;
                while i < rule.geoip_codes.len()
                    invariant
                        opt_view(country) == Some(c@),
                        rule.geoip_codes@.len() > 0,
                        i <= rule.geoip_codes@.len(),
                        cu@ == upper_bytes(c@),
                        forall|k: int|
                            0 <= k < i ==> #[trigger] views_of(rule.geoip_codes@)[k]
                                != upper_bytes(c@),
                    decreases rule.geoip_codes@.len() - i,
                {
                    if slice_eq(rule.geoip_codes[i].as_slice(), cu.as_slice()) {
                        proof {
                            assert(views_of(rule.geoip_codes@)[i as int] == upper_bytes(c@));
                            assert(geoip_match(views_of(rule.geoip_codes@), opt_view(country)));
                        }
                        return true;
                    }
                    i = i + 1;
                }
            },
            None => {},
        }
    }
    false
}

impl Router {
    /// Compile the configured rules, in order.
    pub fn new(config: &RoutingConfig) -> (r: Router)
        ensures
            r.default_action == spec_action_of(encode_utf8(config.default_action@)),
            r.rules@.len() == config.rules@.len(),
            forall|i: int|
                0 <= i < config.rules@.len() ==> compiled_ok(
                    #[trigger] r.rules@[i],
                    config.rules@[i],
                ),
    {
        let default_action = Action::from_str(config.default_action.as_str());
        let mut rules: Vec<CompiledRule> = Vec::new();
        let mut i: usize = 0;
        while i < config.rules.len()
            invariant
                i <= config.rules@.len(),
                rules@.len() == i,
                forall|k: int|
                    0 <= k < i ==> compiled_ok(#[trigger] rules@[k], config.rules@[k]),
            decreases config.rules@.len() - i,
        {
            let compiled = compile_rule(&config.rules[i]);
            rules.push(compiled);
            i = i + 1;
        }
        Router { rules, default_action }
    }

    /// Decide the action for a flow: `sni` from the ClientHello if any,
    /// the pre-NAT destination address, and the destination's country
    /// code if a GeoIP source supplied one. Rules are tried in declared
    /// order; the first match decides; otherwise the default applies.
    pub fn resolve(&self, sni: Option<&[u8]>, dest_ip: &IpAddress, country: Option<&[u8]>) -> (r:
        Action)
        ensures
            r == resolve_spec(
                self.rules@,
                self.default_action,
                opt_view(sni),
                *dest_ip,
                opt_view(country),
            ),
    {
        proof {
            assert(self.rules@.skip(0) =~= self.rules@);
        }
        let mut i: usize = 0;
        while i < self.rules.len()
            invariant
                i <= self.rules@.len(),
                resolve_spec(
                    self.rules@,
                    self.default_action,
                    opt_view(sni),
                    *dest_ip,
                    opt_view(country),
                ) == resolve_spec(
                    self.rules@.skip(i as int),
                    self.default_action,
                    opt_view(sni),
                    *dest_ip,
                    opt_view(country),
                ),
            decreases self.rules@.len() - i,
        {
            proof {
                assert(self.rules@.skip(i as int)[0] == self.rules@[i as int]);
                assert(self.rules@.skip(i as int).skip(1) =~= self.rules@.skip(i as int + 1));
            }
            if matches_rule(&self.rules[i], sni, dest_ip, country) {
                return self.rules[i].action;
            }
            i = i + 1;
        }
        self.default_action
    }
}

} // verus!
