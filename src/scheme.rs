//! The colour-scheme preference: its stored names and its selector positions.
use vstd::prelude::*;

verus! {

#[derive(Clone, Copy, Debug, PartialEq, Eq, Structural)]
pub enum ColorScheme {
    /// Follow the system's choice.
    Follow,
    Light,
    Dark,
}

/// The name under which a scheme is stored.
pub open spec fn scheme_name(c: ColorScheme) -> Seq<char> {
    match c {
        ColorScheme::Follow => "follow"@,
        ColorScheme::Light => "light"@,
        ColorScheme::Dark => "dark"@,
    }
}

/// The scheme's position in the preferences selector.
pub open spec fn scheme_index(c: ColorScheme) -> int {
    match c {
        ColorScheme::Follow => 0,
        ColorScheme::Light => 1,
        ColorScheme::Dark => 2,
    }
}

proof fn lemma_names_distinct()
    ensures
        scheme_name(ColorScheme::Follow) != scheme_name(ColorScheme::Light),
        scheme_name(ColorScheme::Follow) != scheme_name(ColorScheme::Dark),
        scheme_name(ColorScheme::Light) != scheme_name(ColorScheme::Dark),
{
    reveal_strlit("follow");
    reveal_strlit("light");
    reveal_strlit("dark");
    assert("follow"@[0] != "light"@[0]);
    assert("follow"@[0] != "dark"@[0]);
    assert("light"@[0] != "dark"@[0]);
}

/// Whether two texts hold the same characters.
pub fn same_text(a: &str, b: &str) -> (r: bool)
    ensures
        r == (a@ == b@),
{
    let n = a.unicode_len();
    if n != b.unicode_len() {
        return false;
    }
    let mut i: usize = 0;
    while i < n
        invariant
            n == a@.len(),
            n == b@.len(),
            i <= n,
            forall|k: int| 0 <= k < i ==> a@[k] == b@[k],
        decreases n - i,
    {
        if a.get_char(i) != b.get_char(i) {
            return false;
        }
        i += 1;
    }
    assert(a@ =~= b@);
    true
}

impl ColorScheme {
    pub fn name(&self) -> (r: &'static str)
        ensures
            r@ == scheme_name(*self),
    {
        match self {
            ColorScheme::Follow => "follow",
            ColorScheme::Light => "light",
            ColorScheme::Dark => "dark",
        }
    }

    /// The scheme stored under `name`, if any.
    pub fn from_name(name: &str) -> (r: Option<ColorScheme>)
        ensures
            forall|c: ColorScheme| r == Some(c) <==> scheme_name(c) == name@,
            r is None <==> forall|c: ColorScheme| scheme_name(c) != name@,
    {
        proof {
            lemma_names_distinct();
        }
        if same_text(name, "follow") {
            Some(ColorScheme::Follow)
        } else if same_text(name, "light") {
            Some(ColorScheme::Light)
        } else if same_text(name, "dark") {
            Some(ColorScheme::Dark)
        } else {
            proof {
                assert forall|c: ColorScheme| scheme_name(c) != name@ by {
                    match c {
                        ColorScheme::Follow => {},
                        ColorScheme::Light => {},
                        ColorScheme::Dark => {},
                    }
                }
            }
            None
        }
    }

    pub fn index(&self) -> (r: u32)
        ensures
            r == scheme_index(*self),
    {
        match self {
            ColorScheme::Follow => 0,
            ColorScheme::Light => 1,
            ColorScheme::Dark => 2,
        }
    }

    /// The scheme at a position of the selector, if any.
    pub fn from_index(index: u32) -> (r: Option<ColorScheme>)
        ensures
            forall|c: ColorScheme| r == Some(c) <==> scheme_index(c) == index,
            r is None <==> index > 2,
    {
        match index {
            0 => Some(ColorScheme::Follow),
            1 => Some(ColorScheme::Light),
            2 => Some(ColorScheme::Dark),
            _ => None,
        }
    }
}

/// Storing a scheme under its name and reading the name back gives the
/// same scheme; so does going through its selector position.
pub proof fn lemma_scheme_round_trip(c: ColorScheme)
    ensures
        forall|d: ColorScheme| scheme_name(d) == scheme_name(c) ==> d == c,
        forall|d: ColorScheme| scheme_index(d) == scheme_index(c) ==> d == c,
{
    lemma_names_distinct();
}

} // verus!
