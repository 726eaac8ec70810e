//! Decimal rendering and the metadata-directory naming scheme for
//! manifests and manifest lists.

use vstd::prelude::*;

verus! {

/// The decimal digit character for `d`.
pub open spec fn digit_char(d: nat) -> char {
    if d == 0 {
        '0'
    } else if d == 1 {
        '1'
    } else if d == 2 {
        '2'
    } else if d == 3 {
        '3'
    } else if d == 4 {
        '4'
    } else if d == 5 {
        '5'
    } else if d == 6 {
        '6'
    } else if d == 7 {
        '7'
    } else if d == 8 {
        '8'
    } else {
        '9'
    }
}

/// The decimal rendering of `n`, most significant digit first.
pub open spec fn dec_str(n: nat) -> Seq<char>
    decreases n,
{
    if n < 10 {
        seq![digit_char(n)]
    } else {
        dec_str(n / 10).push(digit_char(n % 10))
    }
}

/// One decimal digit as a string.
fn digit_string(d: u64) -> (r: &'static str)
    requires
        d < 10,
    ensures
        r@ == seq![digit_char(d as nat)],
{
    if d == 0 {
        let s = "0";
        proof {
            reveal_strlit("0");
        }
        assert(s@ =~= seq![digit_char(0)]);
        s
    } else if d == 1 {
        let s = "1";
        proof {
            reveal_strlit("1");
        }
        assert(s@ =~= seq![digit_char(1)]);
        s
    } else if d == 2 {
        let s = "2";
        proof {
            reveal_strlit("2");
        }
        assert(s@ =~= seq![digit_char(2)]);
        s
    } else if d == 3 {
        let s = "3";
        proof {
            reveal_strlit("3");
        }
        assert(s@ =~= seq![digit_char(3)]);
        s
    } else if d == 4 {
        let s = "4";
        proof {
            reveal_strlit("4");
        }
        assert(s@ =~= seq![digit_char(4)]);
        s
    } else if d == 5 {
        let s = "5";
        proof {
            reveal_strlit("5");
        }
        assert(s@ =~= seq![digit_char(5)]);
        s
    } else if d == 6 {
        let s = "6";
        proof {
            reveal_strlit("6");
        }
        assert(s@ =~= seq![digit_char(6)]);
        s
    } else if d == 7 {
        let s = "7";
        proof {
            reveal_strlit("7");
        }
        assert(s@ =~= seq![digit_char(7)]);
        s
    } else if d == 8 {
        let s = "8";
        proof {
            reveal_strlit("8");
        }
        assert(s@ =~= seq![digit_char(8)]);
        s
    } else {
        let s = "9";
        proof {
            reveal_strlit("9");
        }
        assert(s@ =~= seq![digit_char(9)]);
        s
    }
}

/// The decimal rendering of `n`.
pub fn dec_string(n: u64) -> (r: String)
    ensures
        r@ == dec_str(n as nat),
    decreases n,
{
    if n < 10 {
        digit_string(n).to_owned()
    } else {
        let mut s = dec_string(n / 10);
        s.append(digit_string(n % 10));
        s
    }
}

/// The location of the manifest file with the given index:
/// `<location>/metadata/<uuid>-m<index>.avro`.
pub fn manifest_location(location: &String, uuid: &String, index: u64) -> (r: String)
    ensures
        r@ == location@ + "/metadata/"@ + uuid@ + "-m"@ + dec_str(index as nat) + ".avro"@,
{
    let mut s = location.clone();
    s.append("/metadata/");
    s.append(uuid.as_str());
    s.append("-m");
    let digits = dec_string(index);
    s.append(digits.as_str());
    s.append(".avro");
    s
}

/// The location of a snapshot's manifest list:
/// `<location>/metadata/snap-<snapshot_id><uuid>.avro`.
pub fn manifest_list_location(location: &String, snapshot_id: u64, uuid: &String) -> (r: String)
    ensures
        r@ == location@ + "/metadata/snap-"@ + dec_str(snapshot_id as nat) + uuid@ + ".avro"@,
{
    let mut s = location.clone();
    s.append("/metadata/snap-");
    let digits = dec_string(snapshot_id);
    s.append(digits.as_str());
    s.append(uuid.as_str());
    s.append(".avro");
    s
}

} // verus!
