//! Startup configuration: pick the bind address and password out of the
//! host process's argument list.
//!
//! Arguments are scanned as overlapping `(name, value)` pairs; a later
//! pair with the same name wins, and each setting's plain name is
//! preferred over its dash-prefixed form.

use vstd::prelude::*;
use vstd::string::StringExecFns;

verus! {

/// The value of the last argument pair whose name is `key`: scanning
/// adjacent pairs left to right, a later occurrence overwrites an
/// earlier one.
pub open spec fn last_value_for(args: Seq<Seq<char>>, key: Seq<char>) -> Option<Seq<char>>
    decreases args.len(),
{
    if args.len() < 2 {
        None
    } else if args[args.len() - 2] == key {
        Some(args.last())
    } else {
        last_value_for(args.drop_last(), key)
    }
}

/// A setting read under its plain name first, then its dash-prefixed
/// name.
pub open spec fn setting_for(
    args: Seq<Seq<char>>,
    key: Seq<char>,
    dash_key: Seq<char>,
) -> Option<Seq<char>> {
    if last_value_for(args, key) is Some {
        last_value_for(args, key)
    } else {
        last_value_for(args, dash_key)
    }
}

/// The bind address and password the argument list configures, if both
/// are present.
pub open spec fn spec_rcon_args(args: Seq<Seq<char>>) -> Option<(Seq<char>, Seq<char>)> {
    let ip = setting_for(args, "rcon_ip_port"@, "-rcon_ip_port"@);
    let pw = setting_for(args, "rcon_password"@, "-rcon_password"@);
    if ip is Some && pw is Some {
        Some((ip->0, pw->0))
    } else {
        None
    }
}

fn find_last_value(args: &Vec<String>, key: &String) -> (r: Option<String>)
    ensures
        r is Some <==> last_value_for(args.deep_view(), key@) is Some,
        r matches Some(v) ==> last_value_for(args.deep_view(), key@) == Some(v@),
{
    let ghost dv = args.deep_view();
    let n = args.len();
    proof {
        assert(dv.take(n as int) =~= dv);
    }
    let mut j: usize = n;
    while j >= 2
        invariant
            j <= n,
            n == dv.len(),
            dv == args.deep_view(),
            last_value_for(dv, key@) == last_value_for(dv.take(j as int), key@),
        decreases j,
    {
        proof {
            assert(dv.take(j as int)[j - 2] == args@[j - 2]@);
            assert(dv.take(j as int).last() == args@[j - 1]@);
            assert(dv.take(j as int).drop_last() =~= dv.take(j - 1));
        }
        if args[j - 2] == *key {
            return Some(args[j - 1].clone());
        }
        j = j - 1;
    }
    None
}

/// Read the bind address and password out of the argument list, exactly
/// as [`spec_rcon_args`] describes: last pair wins, plain name preferred
/// over the dash-prefixed one, and both settings must be present.
pub fn parse_rcon_args(args: &Vec<String>) -> (r: Option<(String, String)>)
    ensures
        r is Some <==> spec_rcon_args(args.deep_view()) is Some,
        r matches Some(p) ==> spec_rcon_args(args.deep_view()) == Some((p.0@, p.1@)),
{
    let k_ip = String::from_str("rcon_ip_port");
    let k_ip_dash = String::from_str("-rcon_ip_port");
    let k_pw = String::from_str("rcon_password");
    let k_pw_dash = String::from_str("-rcon_password");
    let ip = match find_last_value(args, &k_ip) {
        Some(v) => Some(v),
        None => find_last_value(args, &k_ip_dash),
    };
    let pw = match find_last_value(args, &k_pw) {
        Some(v) => Some(v),
        None => find_last_value(args, &k_pw_dash),
    };
    match (ip, pw) {
        (Some(i), Some(p)) => Some((i, p)),
        _ => None,
    }
}

} // verus!
