//! Tile file names: the 1-based inclusive pixel-coordinate ranges of a
//! tile, each bound rendered in decimal and left-padded with zeros to at
//! least five characters.

use vstd::prelude::*;

use crate::raster::Tile;

verus! {

/// The character for one decimal digit.
pub open spec fn digit_char(d: int) -> char {
    if d == 0 {
        '0'
    } else if d == 1 {
        '1'
    } else if d == 2 {
        '2'
    } else if d == 3 {
        '3'
    } else if d == 4 {
        '4'
    } else if d == 5 {
        '5'
    } else if d == 6 {
        '6'
    } else if d == 7 {
        '7'
    } else if d == 8 {
        '8'
    } else {
        '9'
    }
}

/// The decimal digits of `n`, most significant first, with no leading
/// zeros (a single `'0'` for zero).
pub open spec fn dec_digits(n: nat) -> Seq<char>
    decreases n,
{
    if n < 10 {
        seq![digit_char(n as int)]
    } else {
        dec_digits(n / 10) + seq![digit_char((n % 10) as int)]
    }
}

/// A run of `k` zero characters.
pub open spec fn zeros(k: int) -> Seq<char> {
    Seq::new(k as nat, |i: int| '0')
}

/// `n` in decimal, left-padded with zeros to at least five characters.
pub open spec fn padded5(n: nat) -> Seq<char> {
    if dec_digits(n).len() >= 5 {
        dec_digits(n)
    } else {
        zeros(5 - dec_digits(n).len()) + dec_digits(n)
    }
}

/// The digit characters of a least-significant-first digit buffer, read
/// back to front (so most significant first).
pub open spec fn rev_chars(ds: Seq<u8>) -> Seq<char> {
    Seq::new(ds.len(), |i: int| digit_char(ds[ds.len() - 1 - i] as int))
}

/// Appends the character of one decimal digit.
fn push_digit(s: &mut String, d: u8)
    requires
        d < 10,
    ensures
        final (s)@ == old(s)@ + seq![digit_char(d as int)],
{
    match d {
        0 => {
            proof {
                reveal_strlit("0");
                assert("0"@ =~= seq![digit_char(0)]);
            }
            s.append("0");
        },
        1 => {
            proof {
                reveal_strlit("1");
                assert("1"@ =~= seq![digit_char(1)]);
            }
            s.append("1");
        },
        2 => {
            proof {
                reveal_strlit("2");
                assert("2"@ =~= seq![digit_char(2)]);
            }
            s.append("2");
        },
        3 => {
            proof {
                reveal_strlit("3");
                assert("3"@ =~= seq![digit_char(3)]);
            }
            s.append("3");
        },
        4 => {
            proof {
                reveal_strlit("4");
                assert("4"@ =~= seq![digit_char(4)]);
            }
            s.append("4");
        },
        5 => {
            proof {
                reveal_strlit("5");
                assert("5"@ =~= seq![digit_char(5)]);
            }
            s.append("5");
        },
        6 => {
            proof {
                reveal_strlit("6");
                assert("6"@ =~= seq![digit_char(6)]);
            }
            s.append("6");
        },
        7 => {
            proof {
                reveal_strlit("7");
                assert("7"@ =~= seq![digit_char(7)]);
            }
            s.append("7");
        },
        8 => {
            proof {
                reveal_strlit("8");
                assert("8"@ =~= seq![digit_char(8)]);
            }
            s.append("8");
        },
        _ => {
            proof {
                reveal_strlit("9");
                assert("9"@ =~= seq![digit_char(9)]);
            }
            s.append("9");
        },
    }
}

/// Appends `v` in decimal, left-padded with zeros to at least five
/// characters.
fn push_padded(s: &mut String, v: usize)
    ensures
        final (s)@ == old(s)@ + padded5(v as nat),
{
    let mut digs: Vec<u8> = Vec::new();
    let mut m = v;
    while m >= 10
        invariant
            dec_digits(v as nat) == dec_digits(m as nat) + rev_chars(digs@),
            forall|i: int| 0 <= i < digs@.len() ==> digs@[i] < 10,
        decreases m,
    {
        let d = (m % 10) as u8;
        proof {
            let ghost olddigs = digs@;
            assert(rev_chars(olddigs.push(d)) =~= seq![digit_char(d as int)] + rev_chars(olddigs));
            assert(dec_digits(m as nat) == dec_digits((m as nat) / 10) + seq![
                digit_char(((m as nat) % 10) as int),
            ]);
        }
        digs.push(d);
        m = m / 10;
    }
    let d = m as u8;
    proof {
        let ghost olddigs = digs@;
        assert(rev_chars(olddigs.push(d)) =~= seq![digit_char(d as int)] + rev_chars(olddigs));
        assert(dec_digits(m as nat) == seq![digit_char(d as int)]);
    }
    digs.push(d);
    proof {
        assert(rev_chars(digs@) == dec_digits(v as nat));
        assert(digs@.len() >= 1);
    }

    let dlen = digs.len();
    let ghost start = s@;
    let mut k = dlen;
    proof {
        assert(s@ =~= start + zeros(k - dlen));
    }
    while k < 5
        invariant
            dlen == digs@.len(),
            dlen <= k,
            dlen >= 5 ==> k == dlen,
            dlen < 5 ==> k <= 5,
            s@ == start + zeros(k - dlen),
        decreases 5 - k,
    {
        proof {
            reveal_strlit("0");
            assert("0"@ =~= seq!['0']);
            assert(zeros(k - dlen) + seq!['0'] =~= zeros(k + 1 - dlen));
        }
        s.append("0");
        k = k + 1;
    }
    let ghost pad = (k - dlen) as int;

    let mut i = dlen;
    while i > 0
        invariant
            dlen == digs@.len(),
            rev_chars(digs@) == dec_digits(v as nat),
            forall|ii: int| 0 <= ii < digs@.len() ==> digs@[ii] < 10,
            i <= dlen,
            s@ == start + zeros(pad) + rev_chars(digs@).subrange(0, dlen - i),
        decreases i,
    {
        let d = digs[i - 1];
        proof {
            let r = rev_chars(digs@);
            assert(r[dlen - i] == digit_char(d as int));
            assert(r.subrange(0, dlen - i) + seq![digit_char(d as int)] =~= r.subrange(
                0,
                dlen - i + 1,
            ));
        }
        push_digit(s, d);
        i = i - 1;
    }
    proof {
        assert(rev_chars(digs@).subrange(0, dlen as int) =~= rev_chars(digs@));
        if dlen >= 5 {
            assert(pad == 0);
            assert(zeros(0) =~= Seq::<char>::empty());
            assert(s@ =~= start + padded5(v as nat));
        } else {
            assert(pad == 5 - dlen);
            assert(s@ =~= start + padded5(v as nat));
        }
    }
}

/// The tile's file name: the column range `[x1, x2]` and the row range
/// `[y1, y2]`, 1-based and inclusive at both ends, each bound zero-padded
/// to at least five characters, as `x1-x2.y1-y2`.
pub open spec fn fname_spec(t: Tile) -> Seq<char> {
    padded5((t.x_range.0 + 1) as nat) + seq!['-'] + padded5(t.x_range.1 as nat) + seq!['.']
        + padded5((t.y_range.0 + 1) as nat) + seq!['-'] + padded5(t.y_range.1 as nat)
}

impl Tile {
    /// The name of the tile's output file, encoding its pixel-coordinate
    /// ranges in the 1-based inclusive convention.
    pub fn get_fname(&self) -> (s: String)
        requires
            self.x_range.0 < self.x_range.1,
            self.y_range.0 < self.y_range.1,
        ensures
            s@ == fname_spec(*self),
    {
        let mut s = String::new();
        push_padded(&mut s, self.x_range.0 + 1);
        proof {
            reveal_strlit("-");
            assert("-"@ =~= seq!['-']);
            reveal_strlit(".");
            assert("."@ =~= seq!['.']);
        }
        s.append("-");
        push_padded(&mut s, self.x_range.1);
        s.append(".");
        push_padded(&mut s, self.y_range.0 + 1);
        s.append("-");
        push_padded(&mut s, self.y_range.1);
        proof {
            assert(s@ =~= fname_spec(*self));
        }
        s
    }
}

} // verus!
