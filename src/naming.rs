//! Deterministic names of the files that a run writes.
use vstd::prelude::*;

verus! {

/// The decimal digit of a value below 10.
pub open spec fn decimal_digit(d: nat) -> char {
    ((d + 48) as u8) as char
}

/// Decimal text of `n`, without leading zeros.
pub open spec fn decimal(n: nat) -> Seq<char>
    decreases n,
{
    if n < 10 {
        seq![decimal_digit(n)]
    } else {
        decimal(n / 10).push(decimal_digit(n % 10))
    }
}

/// Appends the decimal text of `n` to `out`.
pub fn push_decimal(out: &mut String, n: usize)
    ensures
        final(out)@ == old(out)@ + decimal(n as nat),
    decreases n,
{
    if n >= 10 {
        push_decimal(out, n / 10);
    }
    let digits = "0123456789";
    proof {
        reveal_strlit("0123456789");
    }
    let d = n % 10;
    let s = digits.substring_char(d, d + 1);
    assert(s@ == seq![decimal_digit(d as nat)]) by {
        assert(s@.len() == 1);
        assert(s@[0] == digits@[d as int]);
    }
    out.append(s);
    proof {
        if n >= 10 {
            assert(decimal(n as nat) == decimal((n / 10) as nat).push(decimal_digit((n % 10) as nat)));
        }
    }
}

/// Name of the canonical archive in the output directory.
pub const CANONICAL_ARCHIVE: &'static str = "rootfs.tar.gz";

/// Name of the scratch tree in the output directory.
pub const SCRATCH_DIR: &'static str = "xfs-extract";

/// Name of the copied root filesystem in the output directory.
pub const ROOTFS_DIR: &'static str = "rootfs";

/// Name of the device removal log in the output directory.
pub const DEVICES_LOG: &'static str = "devices.log";

/// `rootfs.<engine>.<index>.tar.gz`: the archive of candidate `index` of `engine`.
pub open spec fn archive_name(engine: Seq<char>, index: nat) -> Seq<char> {
    seq!['r', 'o', 'o', 't', 'f', 's', '.'] + engine + seq!['.'] + decimal(index) + seq![
        '.',
        't',
        'a',
        'r',
        '.',
        'g',
        'z',
    ]
}

/// The file name of the archive of candidate `index` of `engine`.
pub fn archive_file_name(engine: &str, index: usize) -> (r: String)
    ensures
        r@ == archive_name(engine@, index as nat),
{
    let mut out = String::from_str("rootfs.");
    out.append(engine);
    out.append(".");
    push_decimal(&mut out, index);
    out.append(".tar.gz");
    proof {
        reveal_strlit("rootfs.");
        reveal_strlit(".");
        reveal_strlit(".tar.gz");
        assert(out@ == archive_name(engine@, index as nat));
    }
    out
}

} // verus!
