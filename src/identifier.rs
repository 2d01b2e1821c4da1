//! Identifiers: the names of dictionary keys and the parts of qualified ids.
use vstd::prelude::*;
use crate::location::Location;
use crate::result::{Error, ErrorKind};
use crate::text::{chars_of, push_chars, push_str, string_of};

verus! {

/// A letter or an underscore: what may start an identifier.
pub open spec fn is_id_start(c: char) -> bool {
    ('a' <= c && c <= 'z') || ('A' <= c && c <= 'Z') || c == '_'
}

/// What may follow the first character of an identifier.
pub open spec fn is_id_char(c: char) -> bool {
    is_id_start(c) || ('0' <= c && c <= '9')
}

/// A non-empty word of letters, digits and underscores that does not start
/// with a digit.
pub open spec fn is_identifier(s: Seq<char>) -> bool {
    &&& s.len() > 0
    &&& is_id_start(s[0])
    &&& forall|i: int| 1 <= i < s.len() ==> is_id_char(#[trigger] s[i])
}

/// Tests `is_id_start`.
pub fn id_start(c: char) -> (r: bool)
    ensures
        r == is_id_start(c),
{
    ('a' <= c && c <= 'z') || ('A' <= c && c <= 'Z') || c == '_'
}

/// Tests `is_id_char`.
pub fn id_char(c: char) -> (r: bool)
    ensures
        r == is_id_char(c),
{
    id_start(c) || ('0' <= c && c <= '9')
}

/// A well-formed identifier.
#[derive(Debug, PartialEq, Eq, Hash)]
pub struct Identifier {
    chars: Vec<char>,
}

impl View for Identifier {
    type V = Seq<char>;

    closed spec fn view(&self) -> Seq<char> {
        self.chars@
    }
}

impl Identifier {
    #[verifier::type_invariant]
    spec fn inv(&self) -> bool {
        is_identifier(self.chars@)
    }

    /// The identifier spelled by `v`.
    pub fn from_chars(v: Vec<char>) -> (r: Identifier)
        requires
            is_identifier(v@),
        ensures
            r@ == v@,
    {
        Identifier { chars: v }
    }

    /// Tests whether `s` is an identifier.
    pub fn check(s: &Vec<char>) -> (r: bool)
        ensures
            r == is_identifier(s@),
    {
        if s.len() == 0 || !id_start(s[0]) {
            return false;
        }
        let mut i: usize = 1;
        while i < s.len()
            invariant
                1 <= i <= s@.len(),
                forall|j: int| 1 <= j < i ==> is_id_char(#[trigger] s@[j]),
            decreases s@.len() - i,
        {
            if !id_char(s[i]) {
                return false;
            }
            i = i + 1;
        }
        true
    }

    /// The identifier spelled by `s`, or an `InvalidArgument` error when `s`
    /// is not an identifier.
    pub fn try_new(s: &str) -> (r: Result<Identifier, Error>)
        ensures
            r is Ok <==> is_identifier(s@),
            r matches Ok(id) ==> id@ == s@,
            r matches Err(e) ==> e.kind == ErrorKind::InvalidArgument && e.loc
                == Location::Unknown,
    {
        let v = chars_of(s);
        if Identifier::check(&v) {
            Ok(Identifier { chars: v })
        } else {
            let mut msg: Vec<char> = Vec::new();
            push_str(&mut msg, "Malformed identifier ");
            push_chars(&mut msg, &v);
            Err(Error::with_message(ErrorKind::InvalidArgument, string_of(&msg), Location::Unknown))
        }
    }

    /// The characters of this identifier.
    pub fn as_chars(&self) -> (r: &Vec<char>)
        ensures
            r@ == self@,
            is_identifier(self@),
    {
        proof {
            use_type_invariant(self);
        }
        &self.chars
    }

    /// The text of this identifier.
    pub fn to_string(&self) -> (r: String)
        ensures
            r@ == self@,
    {
        string_of(&self.chars)
    }
}

impl Clone for Identifier {
    fn clone(&self) -> (r: Identifier)
        ensures
            r@ == self@,
    {
        proof {
            use_type_invariant(self);
        }
        let mut v: Vec<char> = Vec::new();
        push_chars(&mut v, &self.chars);
        assert(v@ =~= self.chars@);
        Identifier { chars: v }
    }
}

/// Lexicographic order on character sequences, by code point.
pub open spec fn seq_less(a: Seq<char>, b: Seq<char>) -> bool
    decreases a.len(),
{
    if a.len() == 0 {
        b.len() > 0
    } else if b.len() == 0 {
        false
    } else if a[0] != b[0] {
        a[0] < b[0]
    } else {
        seq_less(a.drop_first(), b.drop_first())
    }
}

/// Compares two character sequences: -1, 0 or 1 as `a` comes before, equals
/// or comes after `b`.
pub fn compare_chars(a: &Vec<char>, b: &Vec<char>) -> (r: i8)
    ensures
        r == 0 <==> a@ == b@,
        r < 0 <==> seq_less(a@, b@),
        r > 0 <==> seq_less(b@, a@),
{
    let mut i: usize = 0;
    assert(a@.subrange(0, a@.len() as int) =~= a@);
    assert(b@.subrange(0, b@.len() as int) =~= b@);
    while i < a.len() && i < b.len()
        invariant
            i <= a@.len(),
            i <= b@.len(),
            a@.subrange(0, i as int) == b@.subrange(0, i as int),
            seq_less(a@, b@) == seq_less(a@.subrange(i as int, a@.len() as int), b@.subrange(i as int, b@.len() as int)),
            seq_less(b@, a@) == seq_less(b@.subrange(i as int, b@.len() as int), a@.subrange(i as int, a@.len() as int)),
        decreases a@.len() - i,
    {
        let ghost sa = a@.subrange(i as int, a@.len() as int);
        let ghost sb = b@.subrange(i as int, b@.len() as int);
        if a[i] != b[i] {
            if a[i] < b[i] {
                assert(a@ != b@) by { assert(a@[i as int] != b@[i as int]); }
                assert(sa[0] == a@[i as int] && sb[0] == b@[i as int]);
                return -1;
            } else {
                assert(a@ != b@) by { assert(a@[i as int] != b@[i as int]); }
                assert(sa[0] == a@[i as int] && sb[0] == b@[i as int]);
                return 1;
            }
        }
        assert(sa.drop_first() =~= a@.subrange(i + 1, a@.len() as int));
        assert(sb.drop_first() =~= b@.subrange(i + 1, b@.len() as int));
        assert(a@.subrange(0, i + 1) =~= a@.subrange(0, i as int).push(a@[i as int]));
        assert(b@.subrange(0, i + 1) =~= b@.subrange(0, i as int).push(b@[i as int]));
        i = i + 1;
    }
    if a.len() == b.len() {
        assert(a@ =~= a@.subrange(0, i as int));
        assert(b@ =~= b@.subrange(0, i as int));
        0
    } else if a.len() < b.len() {
        assert(a@.len() != b@.len());
        -1
    } else {
        assert(a@.len() != b@.len());
        1
    }
}

} // verus!
