//! Unix permission modes: applying a symbolic mode string such as `ug+rw` to
//! a numeric mode, and rendering a mode as the ten-character display string
//! of a long directory listing.

use vstd::prelude::*;

verus! {

/// Whether `c` separates the user part of a symbolic mode string from its
/// permission part, and says whether the permissions are added or removed.
pub open spec fn is_sign_char(c: char) -> bool {
    c == '+' || c == '-'
}

/// Whether `c` may stand in the user part of a symbolic mode string.
pub open spec fn is_user_char(c: char) -> bool {
    c == 'u' || c == 'g' || c == 'o' || c == 'a'
}

/// Whether `c` may stand in the permission part of a symbolic mode string.
pub open spec fn is_perm_char(c: char) -> bool {
    c == 'r' || c == 'w' || c == 'x'
}

/// The mode bits selected by one user character.
pub open spec fn user_char_mask(c: char) -> u32 {
    if c == 'u' {
        0o700
    } else if c == 'g' {
        0o070
    } else if c == 'o' {
        0o007
    } else {
        0o777
    }
}

/// The mode bits selected by one permission character.
pub open spec fn perm_char_mask(c: char) -> u32 {
    if c == 'r' {
        0o444
    } else if c == 'w' {
        0o222
    } else {
        0o111
    }
}

/// The union of the mode bits selected by a user part.
pub open spec fn user_mask_of(s: Seq<char>) -> u32
    decreases s.len(),
{
    if s.len() == 0 {
        0
    } else {
        user_mask_of(s.drop_last()) | user_char_mask(s.last())
    }
}

/// The union of the mode bits selected by a permission part.
pub open spec fn perm_mask_of(s: Seq<char>) -> u32
    decreases s.len(),
{
    if s.len() == 0 {
        0
    } else {
        perm_mask_of(s.drop_last()) | perm_char_mask(s.last())
    }
}

/// Whether `d` splits the mode string `s` into a well-formed symbolic mode:
/// a (possibly empty) run of user characters, one sign, and a nonempty run of
/// permission characters. At most one index can satisfy this, because user
/// and permission characters are never signs.
pub open spec fn valid_mode_split(s: Seq<char>, d: int) -> bool {
    &&& 0 <= d < s.len() - 1
    &&& is_sign_char(s[d])
    &&& forall|k: int| 0 <= k < d ==> is_user_char(#[trigger] s[k])
    &&& forall|k: int| d < k < s.len() ==> is_perm_char(#[trigger] s[k])
}

/// Whether the mode string `s` is a well-formed symbolic mode.
pub open spec fn valid_mode_str(s: Seq<char>) -> bool {
    exists|d: int| valid_mode_split(s, d)
}

/// The mode that applying the well-formed symbolic mode `s`, split at `d`,
/// to `mode` yields: the bits selected by both the user part and the
/// permission part are set for `+` and cleared for `-`.
pub open spec fn converted_mode(mode: u32, s: Seq<char>, d: int) -> u32 {
    let mask = user_mask_of(s.take(d)) & perm_mask_of(s.skip(d + 1));
    if s[d] == '+' {
        mode | mask
    } else {
        mode & !mask
    }
}

/// Apply the symbolic mode string `mode_str` (such as `ug+rw` or `a-x`) to
/// the mode `mode`. Returns the new mode, or `None` exactly when `mode_str`
/// is not a well-formed symbolic mode.
pub fn convert_mode(mode: u32, mode_str: &String) -> (r: Option<u32>)
    ensures
        r is Some <==> valid_mode_str(mode_str@),
        forall|d: int|
            valid_mode_split(mode_str@, d) ==> r == Some(converted_mode(mode, mode_str@, d)),
{
    let s = crate::text::to_chars(mode_str);
    let n = s.len();
    let mut user_mask: u32 = 0;
    let mut i: usize = 0;

    // The user part: everything before the first sign.
    loop
        invariant
            i <= n,
            n == mode_str@.len(),
            s@ == mode_str@,
            forall|k: int| 0 <= k < i ==> is_user_char(#[trigger] s@[k]),
            user_mask == user_mask_of(s@.take(i as int)),
        decreases n - i,
    {
        if i == n {
            // No sign at all: every character is a user character, so no
            // index can carry the sign.
            proof {
                assert forall|d: int| !valid_mode_split(mode_str@, d) by {
                    if 0 <= d < n {
                        assert(is_user_char(s@[d]));
                    }
                }
            }
            return None;
        }
        let c = s[i];
        if c == '+' || c == '-' {
            return convert_perm_part(mode, mode_str, &s, i, user_mask, c == '+');
        }
        if c == 'u' {
            user_mask = user_mask | 0o700;
        } else if c == 'g' {
            user_mask = user_mask | 0o070;
        } else if c == 'o' {
            user_mask = user_mask | 0o007;
        } else if c == 'a' {
            user_mask = user_mask | 0o777;
        } else {
            // A character that is neither a user character nor a sign: a
            // split before it would make it a permission character, a split
            // at it a sign, and a split after it a user character.
            proof {
                assert forall|d: int| !valid_mode_split(mode_str@, d) by {
                    if valid_mode_split(mode_str@, d) {
                        if d < i {
                            assert(is_user_char(s@[d]));
                        } else if d > i {
                            assert(is_user_char(s@[i as int]));
                        }
                    }
                }
            }
            return None;
        }
        proof {
            assert(s@.take(i + 1).drop_last() =~= s@.take(i as int));
        }
        i = i + 1;
    }
}

/// The second phase of [`convert_mode`]: the sign stands at index `i`, the
/// characters before it are user characters selecting `user_mask`, and the
/// permission part after it remains to be read.
fn convert_perm_part(
    mode: u32,
    mode_str: &String,
    s: &Vec<char>,
    i: usize,
    user_mask: u32,
    add_perms: bool,
) -> (r: Option<u32>)
    requires
        s@ == mode_str@,
        i < s@.len(),
        is_sign_char(s@[i as int]),
        add_perms == (s@[i as int] == '+'),
        forall|k: int| 0 <= k < i ==> is_user_char(#[trigger] s@[k]),
        user_mask == user_mask_of(s@.take(i as int)),
    ensures
        r is Some <==> valid_mode_str(mode_str@),
        forall|d: int|
            valid_mode_split(mode_str@, d) ==> r == Some(converted_mode(mode, mode_str@, d)),
{
    let n = s.len();
    proof {
        // Only `i` can split the string: before it nothing is a sign, and a
        // later split would need the sign at `i` to be a user character.
        assert forall|d: int| valid_mode_split(mode_str@, d) implies d == i as int by {
            if d < i {
                assert(is_user_char(s@[d]));
            } else if d > i {
                assert(is_user_char(s@[i as int]));
            }
        }
    }
    if i + 1 == n {
        // A sign with nothing after it: the permission part would be empty.
        proof {
            assert(!valid_mode_split(mode_str@, i as int));
        }
        return None;
    }

    let mut perm_mask: u32 = 0;
    let mut j: usize = i + 1;
    // The permission part: everything after the sign.
    loop
        invariant
            i + 1 <= j <= n,
            i + 1 < n,
            n == s@.len(),
            s@ == mode_str@,
            is_sign_char(s@[i as int]),
            add_perms == (s@[i as int] == '+'),
            forall|k: int| 0 <= k < i ==> is_user_char(#[trigger] s@[k]),
            user_mask == user_mask_of(s@.take(i as int)),
            forall|k: int| i < k < j ==> is_perm_char(#[trigger] s@[k]),
            perm_mask == perm_mask_of(s@.subrange(i + 1, j as int)),
        decreases n - j,
    {
        if j == n {
            proof {
                assert(s@.subrange(i + 1, n as int) =~= s@.skip(i + 1));
                assert(valid_mode_split(mode_str@, i as int));
                assert forall|d: int| valid_mode_split(mode_str@, d) implies d == i as int by {
                    if d < i {
                        assert(is_user_char(s@[d]));
                    } else if d > i {
                        assert(is_user_char(s@[i as int]));
                    }
                }
            }
            let mask = user_mask & perm_mask;
            if add_perms {
                return Some(mode | mask);
            } else {
                return Some(mode & !mask);
            }
        }
        let c = s[j];
        if c == 'r' {
            perm_mask = perm_mask | 0o444;
        } else if c == 'w' {
            perm_mask = perm_mask | 0o222;
        } else if c == 'x' {
            perm_mask = perm_mask | 0o111;
        } else {
            // An invalid character after the sign: a split at `i` fails on
            // it, and no other split is possible.
            proof {
                assert forall|d: int| !valid_mode_split(mode_str@, d) by {
                    if valid_mode_split(mode_str@, d) {
                        if d < i {
                            assert(is_user_char(s@[d]));
                        } else if d == i {
                            assert(is_perm_char(s@[j as int]));
                        } else {
                            assert(is_user_char(s@[i as int]));
                        }
                    }
                }
            }
            return None;
        }
        proof {
            assert(s@.subrange(i + 1, j + 1).drop_last() =~= s@.subrange(i + 1, j as int));
        }
        j = j + 1;
    }
}

/// The file-type character that opens a long-listing mode string.
pub open spec fn type_char(is_symlink: bool, is_dir: bool) -> char {
    if is_symlink {
        'l'
    } else if is_dir {
        'd'
    } else {
        '-'
    }
}

/// `letter` where `mode` has the bit `bit_mask` set, `-` where not.
pub open spec fn perm_display_char(mode: u32, bit_mask: u32, letter: char) -> char {
    if mode & bit_mask != 0 {
        letter
    } else {
        '-'
    }
}

/// The ten-character display string of a mode: the file-type character, then
/// read, write and execute for user, group and others, each permission shown
/// by its letter where its bit is set and by `-` where not.
pub open spec fn mode_display(mode: u32, is_symlink: bool, is_dir: bool) -> Seq<char> {
    seq![
        type_char(is_symlink, is_dir),
        perm_display_char(mode, 0o400, 'r'),
        perm_display_char(mode, 0o200, 'w'),
        perm_display_char(mode, 0o100, 'x'),
        perm_display_char(mode, 0o040, 'r'),
        perm_display_char(mode, 0o020, 'w'),
        perm_display_char(mode, 0o010, 'x'),
        perm_display_char(mode, 0o004, 'r'),
        perm_display_char(mode, 0o002, 'w'),
        perm_display_char(mode, 0o001, 'x'),
    ]
}

/// Render `mode` as the ten-character string of a long directory listing,
/// for a file whose type the two flags give.
pub fn format_mode(mode: u32, is_symlink: bool, is_dir: bool) -> (r: String)
    ensures
        r@ == mode_display(mode, is_symlink, is_dir),
{
    proof {
        reveal_strlit("l");
        reveal_strlit("d");
        reveal_strlit("-");
        reveal_strlit("r");
        reveal_strlit("w");
        reveal_strlit("x");
    }
    let mut out = String::new();
    out.append(if is_symlink {
        "l"
    } else if is_dir {
        "d"
    } else {
        "-"
    });
    out.append(if mode & 0o400 != 0 {
        "r"
    } else {
        "-"
    });
    out.append(if mode & 0o200 != 0 {
        "w"
    } else {
        "-"
    });
    out.append(if mode & 0o100 != 0 {
        "x"
    } else {
        "-"
    });
    out.append(if mode & 0o040 != 0 {
        "r"
    } else {
        "-"
    });
    out.append(if mode & 0o020 != 0 {
        "w"
    } else {
        "-"
    });
    out.append(if mode & 0o010 != 0 {
        "x"
    } else {
        "-"
    });
    out.append(if mode & 0o004 != 0 {
        "r"
    } else {
        "-"
    });
    out.append(if mode & 0o002 != 0 {
        "w"
    } else {
        "-"
    });
    out.append(if mode & 0o001 != 0 {
        "x"
    } else {
        "-"
    });
    proof {
        assert(out@ =~= mode_display(mode, is_symlink, is_dir));
    }
    out
}

} // verus!
