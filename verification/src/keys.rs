//! Rendering of snapshot keys into the store's key schema.
//!
//! A [`SnapshotKey`] renders as
//! `f123:championship:{cid}:session:{sid}:session`,
//! `...:participants` or `...:history:car:{carIdx}`, with every
//! number in decimal.  [`spec_key`] is the authoritative text;
//! [`render_key`] is proved to produce it.

use vstd::prelude::*;
use vstd::string::StringExecFns;

use crate::ingest::SnapshotKey;

verus! {

/// The decimal digit character of `d` (meaningful for `0 <= d < 10`).
pub open spec fn dec_digit(d: int) -> char {
    ((48 + d) as u8) as char
}

/// The decimal representation of `n`, most significant digit first.
pub open spec fn dec_seq(n: int) -> Seq<char>
    decreases n,
{
    if n < 10 {
        seq![dec_digit(n)]
    } else {
        dec_seq(n / 10).push(dec_digit(n % 10))
    }
}

/// The full text of a snapshot key.
pub open spec fn spec_key(key: SnapshotKey) -> Seq<char> {
    match key {
        SnapshotKey::Session { championship_id, session_uid } => "f123:championship:"@ + dec_seq(
            championship_id as int,
        ) + ":session:"@ + dec_seq(session_uid as int) + ":session"@,
        SnapshotKey::Participants { championship_id, session_uid } => "f123:championship:"@
            + dec_seq(championship_id as int) + ":session:"@ + dec_seq(session_uid as int)
            + ":participants"@,
        SnapshotKey::HistoryCar { championship_id, session_uid, car_idx } => "f123:championship:"@
            + dec_seq(championship_id as int) + ":session:"@ + dec_seq(session_uid as int)
            + ":history:car:"@ + dec_seq(car_idx as int),
    }
}

/// One decimal digit as a string.
fn digit_str(d: u8) -> (r: String)
    requires
        d < 10,
    ensures
        r@ == seq![dec_digit(d as int)],
{
    let r = match d {
        0 => String::from_str("0"),
        1 => String::from_str("1"),
        2 => String::from_str("2"),
        3 => String::from_str("3"),
        4 => String::from_str("4"),
        5 => String::from_str("5"),
        6 => String::from_str("6"),
        7 => String::from_str("7"),
        8 => String::from_str("8"),
        _ => String::from_str("9"),
    };
    proof {
        reveal_strlit("0");
        reveal_strlit("1");
        reveal_strlit("2");
        reveal_strlit("3");
        reveal_strlit("4");
        reveal_strlit("5");
        reveal_strlit("6");
        reveal_strlit("7");
        reveal_strlit("8");
        reveal_strlit("9");
        assert(r@ =~= seq![dec_digit(d as int)]);
    }
    r
}

/// The decimal text of `n`.
pub fn u64_decimal(n: u64) -> (r: String)
    ensures
        r@ == dec_seq(n as int),
    decreases n,
{
    if n < 10 {
        digit_str(n as u8)
    } else {
        let mut r = u64_decimal(n / 10);
        let d = digit_str((n % 10) as u8);
        r.append(d.as_str());
        proof {
            assert(r@ =~= dec_seq(n as int));
        }
        r
    }
}

/// Renders a snapshot key in the store's key schema.
pub fn render_key(key: &SnapshotKey) -> (r: String)
    ensures
        r@ == spec_key(*key),
{
    let mut r = String::from_str("f123:championship:");
    match key {
        SnapshotKey::Session { championship_id, session_uid } => {
            let cid = u64_decimal(*championship_id as u64);
            r.append(cid.as_str());
            r.append(":session:");
            let sid = u64_decimal(*session_uid);
            r.append(sid.as_str());
            r.append(":session");
            proof {
                assert(r@ =~= spec_key(*key));
            }
        },
        SnapshotKey::Participants { championship_id, session_uid } => {
            let cid = u64_decimal(*championship_id as u64);
            r.append(cid.as_str());
            r.append(":session:");
            let sid = u64_decimal(*session_uid);
            r.append(sid.as_str());
            r.append(":participants");
            proof {
                assert(r@ =~= spec_key(*key));
            }
        },
        SnapshotKey::HistoryCar { championship_id, session_uid, car_idx } => {
            let cid = u64_decimal(*championship_id as u64);
            r.append(cid.as_str());
            r.append(":session:");
            let sid = u64_decimal(*session_uid);
            r.append(sid.as_str());
            r.append(":history:car:");
            let car = u64_decimal(*car_idx as u64);
            r.append(car.as_str());
            proof {
                assert(r@ =~= spec_key(*key));
            }
        },
    }
    r
}

} // verus!
