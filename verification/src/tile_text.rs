//! Text forms of a tile: `z/x/y` paths and the `x..y..z..` label.
use crate::decimal::{decimal, push_decimal};
use crate::tile::Tile;
use vstd::prelude::*;
use vstd::string::StringExecFns;

verus! {

broadcast use vstd::string::group_string_axioms;

/// `z/x/y`, each in decimal.
pub open spec fn zxy_text(t: Tile) -> Seq<char> {
    decimal(t.z as nat) + seq!['/'] + decimal(t.x as nat) + seq!['/'] + decimal(t.y as nat)
}

/// `x<x>y<y>z<z>`, each number in decimal.
pub open spec fn label_text(t: Tile) -> Seq<char> {
    seq!['x'] + decimal(t.x as nat) + seq!['y'] + decimal(t.y as nat) + seq!['z'] + decimal(
        t.z as nat,
    )
}

impl Tile {
    /// The tile's `z/x/y` path.
    pub fn fmt_zxy(&self) -> (r: String)
        ensures
            r@ == zxy_text(*self),
    {
        let mut s = String::new();
        proof { reveal_strlit("/"); }
        push_decimal(&mut s, self.z as u64);
        s.append("/");
        push_decimal(&mut s, self.x as u64);
        s.append("/");
        push_decimal(&mut s, self.y as u64);
        assert(s@ =~= zxy_text(*self));
        s
    }

    /// The tile's `z/x/y.ext` path.
    pub fn fmt_zxy_ext(&self, ext: &str) -> (r: String)
        ensures
            r@ == zxy_text(*self) + seq!['.'] + ext@,
    {
        let mut s = self.fmt_zxy();
        proof { reveal_strlit("."); }
        s.append(".");
        s.append(ext);
        assert(s@ =~= zxy_text(*self) + seq!['.'] + ext@);
        s
    }

    /// The tile's label, `x<x>y<y>z<z>`.
    pub fn to_string(&self) -> (r: String)
        ensures
            r@ == label_text(*self),
    {
        let mut s = String::new();
        proof {
            reveal_strlit("x");
            reveal_strlit("y");
            reveal_strlit("z");
        }
        s.append("x");
        push_decimal(&mut s, self.x as u64);
        s.append("y");
        push_decimal(&mut s, self.y as u64);
        s.append("z");
        push_decimal(&mut s, self.z as u64);
        assert(s@ =~= label_text(*self));
        s
    }
}

} // verus!
