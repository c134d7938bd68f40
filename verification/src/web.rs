//! Decisions of the HTTP front end: the route listing, the file name of an
//! aux-spec request, the TLS domains, the host check, the columns a map
//! ping is logged under, and the port.
use vstd::prelude::*;
use crate::text::{chars_of, push_str, starts_with, starts_with_spec, string_of, sub_chars};

verus! {

broadcast use vstd::string::group_string_axioms;

/// The paths the HTTP API serves, in the order `/api/routes` lists them.
pub const API_ROUTES: [&'static str; 16] = [
    "/leaderboard/global",
    "/leaderboard/global/len",
    "/leaderboard/global/<page>",
    "/leaderboard/<wsid>",
    "/live_heights/global",
    "/live_heights/<wsid> (prefer global)",
    "/overview",
    "/server_info",
    "/donations",
    "/twitch/list",
    "/aux_spec/<wsid>/<name_id>.json",
    "/map/<uid>/nb_active_climbers",
    "/map/<uid>/leaderboard",
    "/map/<uid>/leaderboard/len",
    "/map/<uid>/leaderboard/<page>",
    "/map/<uid>/live_heights",
];

/// The texts of `parts` with `sep` between consecutive ones.
pub open spec fn join_spec(parts: Seq<Seq<char>>, sep: Seq<char>) -> Seq<char>
    decreases parts.len(),
{
    if parts.len() == 0 {
        Seq::empty()
    } else if parts.len() == 1 {
        parts[0]
    } else {
        join_spec(parts.drop_last(), sep) + sep + parts.last()
    }
}

/// The characters of the first `n` routes.
pub open spec fn route_texts(n: int) -> Seq<Seq<char>> {
    Seq::new(n as nat, |i: int| API_ROUTES@[i]@)
}

/// The reply of `/api/routes`: `Routes: ` and the routes, separated by `, `.
pub fn api_routes_text() -> (r: String)
    ensures
        r@ == "Routes: "@ + join_spec(route_texts(16), ", "@),
{
    let routes = API_ROUTES;
    let mut r = <String as vstd::string::StringExecFns>::from_str("Routes: ");
    let ghost start = r@;
    let mut i: usize = 0;
    while i < 16
        invariant
            i <= 16,
            routes@ == API_ROUTES@,
            r@ == start + join_spec(route_texts(i as int), ", "@),
        decreases 16 - i,
    {
        proof {
            assert(route_texts(i + 1).drop_last() =~= route_texts(i as int));
        }
        if i > 0 {
            push_str(&mut r, ", ");
        }
        push_str(&mut r, routes[i]);
        proof {
            if i == 0 {
                assert(r@ =~= start + join_spec(route_texts(1), ", "@));
            } else {
                assert(r@ =~= start + join_spec(route_texts(i + 1), ", "@));
            }
        }
        i = i + 1;
    }
    r
}

/// The characters of `.json`.
pub open spec fn json_ext() -> Seq<char> {
    seq!['.', 'j', 's', 'o', 'n']
}

/// `s` ends with `.json`.
pub open spec fn ends_with_json(s: Seq<char>) -> bool {
    s.len() >= 5 && s.skip(s.len() - 5) == json_ext()
}

/// `s` with every trailing `.json` removed.
pub open spec fn trim_json(s: Seq<char>) -> Seq<char>
    decreases s.len(),
{
    if ends_with_json(s) {
        trim_json(s.take(s.len() - 5))
    } else {
        s
    }
}

proof fn lemma_trim_json_done(s: Seq<char>)
    ensures
        !ends_with_json(trim_json(s)),
    decreases s.len(),
{
    if ends_with_json(s) {
        lemma_trim_json_done(s.take(s.len() - 5));
    }
}

fn ends_with_json_chars(s: &[char]) -> (r: bool)
    ensures
        r == ends_with_json(s@),
{
    let n = s.len();
    if n < 5 {
        return false;
    }
    let r = s[n - 5] == '.' && s[n - 4] == 'j' && s[n - 3] == 's' && s[n - 2] == 'o' && s[n - 1] == 'n';
    proof {
        if r {
            assert(s@.skip(n - 5) =~= json_ext());
        } else {
            let t = s@.skip(n - 5);
            assert(t.len() == 5);
            if t == json_ext() {
                assert(t[0] == '.' && t[1] == 'j' && t[2] == 's' && t[3] == 'o' && t[4] == 'n');
            }
        }
    }
    r
}

/// The name of an aux spec from the last path segment of a request: the
/// segment must end with `.json`, and every trailing `.json` is removed.
/// `None` is answered with "not found".
pub fn aux_spec_name_id(segment: &str) -> (r: Option<String>)
    ensures
        r is Some <==> ends_with_json(segment@),
        r matches Some(n) ==> n@ == trim_json(segment@) && !ends_with_json(n@),
{
    proof {
        lemma_trim_json_done(segment@);
    }
    let v = chars_of(segment);
    if !ends_with_json_chars(v.as_slice()) {
        return None;
    }
    let mut cur = v;
    while ends_with_json_chars(cur.as_slice())
        invariant
            trim_json(cur@) == trim_json(segment@),
        decreases cur@.len(),
    {
        let ghost prev = cur@;
        let n = cur.len();
        cur = sub_chars(cur.as_slice(), 0, n - 5);
        assert(cur@ =~= prev.take(prev.len() - 5));
    }
    Some(string_of(cur.as_slice()))
}

/// The domains a TLS certificate is requested for: the given domain, and
/// `proximity.xk.io` when extra domains are wanted.
pub fn tls_domains(domain: &str, add_extra_domains: bool) -> (r: Vec<String>)
    ensures
        r@.len() == if add_extra_domains { 2int } else { 1int },
        r@[0]@ == domain@,
        add_extra_domains ==> r@[1]@ == "proximity.xk.io"@,
{
    let mut v: Vec<String> = Vec::new();
    v.push(<String as vstd::string::StringExecFns>::from_str(domain));
    if add_extra_domains {
        v.push(<String as vstd::string::StringExecFns>::from_str("proximity.xk.io"));
    }
    v
}

/// A request is for the right site when its `host` header starts with the
/// allowed domain; otherwise it is redirected.
pub fn host_allowed(host: &str, allowed_domain: &str) -> (r: bool)
    ensures
        r == starts_with_spec(host@, allowed_domain@),
{
    let h = chars_of(host);
    let a = chars_of(allowed_domain);
    starts_with(h.as_slice(), a.as_slice())
}

/// The two address columns a map ping is logged under: the address goes to
/// the first (IPv4) or the second (IPv6), and the other stays empty.
pub fn ping_ip_columns(ip: &str, is_ipv4: bool) -> (r: (String, String))
    ensures
        is_ipv4 ==> r.0@ == ip@ && r.1@.len() == 0,
        !is_ipv4 ==> r.0@.len() == 0 && r.1@ == ip@,
{
    let text = <String as vstd::string::StringExecFns>::from_str(ip);
    if is_ipv4 {
        (text, String::new())
    } else {
        (String::new(), text)
    }
}

/// The HTTP port: 8077 in development, 443 (with TLS) in production.
pub fn http_port(dev_mode: bool) -> (r: u16)
    ensures
        r == if dev_mode { 8077u16 } else { 443u16 },
{
    if dev_mode {
        8077
    } else {
        443
    }
}

} // verus!
