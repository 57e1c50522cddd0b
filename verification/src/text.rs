//! Text as sequences of characters.
//!
//! Every rule of this crate about names, paths and keys is stated over
//! `Seq<char>`; the functions here are the executable counterparts.

use vstd::prelude::*;
use vstd::string::*;

verus! {

/// `String::push` of the standard library: appends one character.
pub assume_specification[ String::push ](s: &mut String, c: char)
    ensures
        final(s)@ == old(s)@.push(c),
;

/// `str::to_lowercase` of the standard library: the Unicode lowercase
/// mapping of a text.
pub uninterp spec fn unicode_lowercase(s: Seq<char>) -> Seq<char>;

/// Calls `str::to_lowercase`. The result is a function of the characters
/// alone; the Unicode tables themselves are not restated here.
#[verifier::external_body]
pub(crate) fn to_lowercase(s: &str) -> (r: String)
    ensures
        r@ == unicode_lowercase(s@),
{
    s.to_lowercase()
}

// ------------------------------------------------------------------
// Building and comparing
// ------------------------------------------------------------------

/// The views of a sequence of strings.
pub open spec fn texts(v: Seq<String>) -> Seq<Seq<char>> {
    Seq::new(v.len(), |i: int| v[i]@)
}

/// The characters of a string, in order.
pub fn chars_of(s: &str) -> (r: Vec<char>)
    ensures
        r@ == s@,
{
    let mut out: Vec<char> = Vec::new();
    for c in it: s.chars()
        invariant
            out@ == s@.take(it.index() as int),
            it.seq() == s@,
    {
        out.push(c);
    }
    out
}

/// The string made of the characters of `v`.
pub fn string_of(v: &Vec<char>) -> (r: String)
    ensures
        r@ == v@,
{
    let mut out = String::new();
    let mut i: usize = 0;
    while i < v.len()
        invariant
            i <= v.len(),
            out@ == v@.take(i as int),
        decreases v.len() - i,
    {
        out.push(v[i]);
        i = i + 1;
        assert(v@.take(i as int) == v@.take(i - 1).push(v@[i - 1]));
    }
    assert(v@.take(i as int) == v@);
    out
}

/// Whether two strings hold the same characters.
pub fn same(a: &str, b: &str) -> (r: bool)
    ensures
        r == (a@ == b@),
{
    let x = a.as_bytes();
    let y = b.as_bytes();
    if x.len() != y.len() {
        return false;
    }
    let mut i: usize = 0;
    while i < x.len()
        invariant
            i <= x@.len(),
            x@.len() == y@.len(),
            x@ == a.spec_bytes(),
            y@ == b.spec_bytes(),
            forall|j: int| 0 <= j < i ==> x@[j] == y@[j],
        decreases x@.len() - i,
    {
        if x[i] != y[i] {
            return false;
        }
        i = i + 1;
    }
    proof {
        assert(x@ =~= y@);
        vstd::utf8::encode_utf8_decode_utf8(a@);
        vstd::utf8::encode_utf8_decode_utf8(b@);
    }
    true
}

/// Whether two optional strings are both absent or hold the same characters.
pub fn same_opt(a: &Option<String>, b: &Option<String>) -> (r: bool)
    ensures
        r == (opt_text(*a) == opt_text(*b)),
{
    match (a, b) {
        (Some(x), Some(y)) => same(x.as_str(), y.as_str()),
        (None, None) => true,
        _ => false,
    }
}

/// The characters of an optional string.
pub open spec fn opt_text(o: Option<String>) -> Option<Seq<char>> {
    match o {
        Some(s) => Some(s@),
        None => None,
    }
}

/// The text of an optional string, empty where it is absent.
pub open spec fn text_or_empty(o: Option<String>) -> Seq<char> {
    match o {
        Some(s) => s@,
        None => Seq::<char>::empty(),
    }
}

/// The string itself, or an empty one.
pub fn or_empty(o: &Option<String>) -> (r: String)
    ensures
        r@ == text_or_empty(*o),
{
    match o {
        Some(s) => s.clone(),
        None => String::new(),
    }
}

/// Two texts, one after the other.
pub fn cat2(a: &str, b: &str) -> (r: String)
    ensures
        r@ == a@ + b@,
{
    let mut s = a.to_owned();
    s.append(b);
    s
}

/// Three texts, one after the other.
pub fn cat3(a: &str, b: &str, c: &str) -> (r: String)
    ensures
        r@ == a@ + b@ + c@,
{
    let mut s = a.to_owned();
    s.append(b);
    s.append(c);
    s
}

/// Four texts, one after the other.
pub fn cat4(a: &str, b: &str, c: &str, d: &str) -> (r: String)
    ensures
        r@ == a@ + b@ + c@ + d@,
{
    let mut s = cat3(a, b, c);
    s.append(d);
    s
}

/// Five texts, one after the other.
pub fn cat5(a: &str, b: &str, c: &str, d: &str, e: &str) -> (r: String)
    ensures
        r@ == a@ + b@ + c@ + d@ + e@,
{
    let mut s = cat4(a, b, c, d);
    s.append(e);
    s
}

/// A copy of a list of strings.
pub fn clone_list(v: &Vec<String>) -> (r: Vec<String>)
    ensures
        r@ == v@,
{
    let mut out: Vec<String> = Vec::new();
    let mut i: usize = 0;
    while i < v.len()
        invariant
            i <= v.len(),
            out@ == v@.take(i as int),
        decreases v.len() - i,
    {
        out.push(v[i].clone());
        i = i + 1;
        assert(v@.take(i as int) == v@.take(i - 1).push(v@[i - 1]));
    }
    assert(v@.take(i as int) == v@);
    out
}

/// Whether `x` is one of the strings of `v`.
pub open spec fn listed(v: Seq<String>, x: Seq<char>) -> bool {
    exists|i: int| 0 <= i < v.len() && #[trigger] v[i]@ == x
}

/// Whether `x` is one of the strings of `v`.
pub fn list_has(v: &Vec<String>, x: &str) -> (r: bool)
    ensures
        r == listed(v@, x@),
{
    let mut i: usize = 0;
    while i < v.len()
        invariant
            i <= v.len(),
            forall|j: int| 0 <= j < i ==> v@[j]@ != x@,
        decreases v.len() - i,
    {
        if same(v[i].as_str(), x) {
            assert(v@[i as int]@ == x@);
            return true;
        }
        i = i + 1;
    }
    false
}

/// The set of the texts of `v`.
pub open spec fn set_of(v: Seq<String>) -> Set<Seq<char>> {
    Set::new(|x: Seq<char>| listed(v, x))
}

/// Whether no text stands in `v` twice.
pub open spec fn all_differ(v: Seq<String>) -> bool {
    forall|i: int, j: int| 0 <= i < j < v.len() ==> #[trigger] v[i]@ != #[trigger] v[j]@
}

/// Adds a text to a list where it is not in it yet.
pub fn add_unique(v: &mut Vec<String>, x: &str)
    requires
        all_differ(old(v)@),
    ensures
        all_differ(final(v)@),
        set_of(final(v)@) == set_of(old(v)@).insert(x@),
{
    let ghost before = v@;
    if list_has(v, x) {
        assert(set_of(before).insert(x@) =~= set_of(before));
    } else {
        v.push(x.to_owned());
        proof {
            assert forall|y: Seq<char>| listed(v@, y) <==> (listed(before, y) || y == x@) by {
                if listed(before, y) {
                    let i = choose|i: int| 0 <= i < before.len() && #[trigger] before[i]@ == y;
                    assert(v@[i]@ == y);
                }
                if y == x@ {
                    assert(v@[before.len() as int]@ == y);
                }
                if listed(v@, y) {
                    let i = choose|i: int| 0 <= i < v@.len() && #[trigger] v@[i]@ == y;
                    if i < before.len() {
                        assert(before[i]@ == y);
                    }
                }
            }
            assert(set_of(v@) =~= set_of(before).insert(x@));
            assert forall|i: int, j: int| 0 <= i < j < v@.len() implies #[trigger] v@[i]@
                != #[trigger] v@[j]@ by {
                if j == before.len() {
                    assert(before[i]@ != x@);
                }
            }
        }
    }
}

/// A list without repetitions has as many texts as its set.
pub proof fn lemma_set_of_len(v: Seq<String>)
    requires
        all_differ(v),
    ensures
        set_of(v).finite(),
        set_of(v).len() == v.len(),
    decreases v.len(),
{
    if v.len() == 0 {
        assert(set_of(v) =~= Set::<Seq<char>>::empty());
    } else {
        let rest = v.drop_last();
        assert(all_differ(rest)) by {
            assert forall|i: int, j: int| 0 <= i < j < rest.len() implies #[trigger] rest[i]@
                != #[trigger] rest[j]@ by {
                assert(v[i]@ != v[j]@);
            }
        }
        lemma_set_of_len(rest);
        let last = v.last()@;
        assert forall|x: Seq<char>| #[trigger] set_of(v).contains(x) <==> set_of(rest).insert(
            last,
        ).contains(x) by {
            if listed(rest, x) {
                let i = choose|i: int| 0 <= i < rest.len() && #[trigger] rest[i]@ == x;
                assert(v[i]@ == x);
            }
            if x == last {
                assert(v[v.len() - 1]@ == x);
            }
            if listed(v, x) {
                let i = choose|i: int| 0 <= i < v.len() && #[trigger] v[i]@ == x;
                if i < rest.len() {
                    assert(rest[i]@ == x);
                }
            }
        }
        assert(set_of(v) =~= set_of(rest).insert(last));
        assert(!set_of(rest).contains(last)) by {
            if listed(rest, last) {
                let i = choose|i: int| 0 <= i < rest.len() && #[trigger] rest[i]@ == last;
                assert(v[i]@ != v[v.len() - 1]@);
            }
        }
    }
}

/// The texts of `parts` with `sep` between them.
pub open spec fn joined(parts: Seq<Seq<char>>, sep: Seq<char>) -> Seq<char>
    decreases parts.len(),
{
    if parts.len() == 0 {
        Seq::<char>::empty()
    } else if parts.len() == 1 {
        parts[0]
    } else {
        joined(parts.drop_last(), sep) + sep + parts.last()
    }
}

/// The strings of `parts` with `sep` between them.
pub fn join(parts: &Vec<String>, sep: &str) -> (r: String)
    ensures
        r@ == joined(texts(parts@), sep@),
{
    let mut out = String::new();
    let mut i: usize = 0;
    while i < parts.len()
        invariant
            i <= parts.len(),
            out@ == joined(texts(parts@).take(i as int), sep@),
        decreases parts.len() - i,
    {
        if i == 0 {
            out = parts[i].clone();
        } else {
            out.append(sep);
            out.append(parts[i].as_str());
        }
        i = i + 1;
        assert(texts(parts@).take(i as int).drop_last() == texts(parts@).take(i - 1));
    }
    assert(texts(parts@).take(i as int) == texts(parts@));
    out
}

// ------------------------------------------------------------------
// Searching
// ------------------------------------------------------------------

/// Whether `needle` stands in `hay` from position `i` on.
pub open spec fn stands_at(hay: Seq<char>, needle: Seq<char>, i: int) -> bool {
    0 <= i && i + needle.len() <= hay.len() && hay.subrange(i, i + needle.len()) == needle
}

/// Whether `needle` stands anywhere in `hay`.
pub open spec fn occurs(hay: Seq<char>, needle: Seq<char>) -> bool {
    exists|i: int| stands_at(hay, needle, i)
}

/// Whether `hay` begins with `needle`.
pub open spec fn begins(hay: Seq<char>, needle: Seq<char>) -> bool {
    stands_at(hay, needle, 0)
}

/// Whether `hay` ends with `needle`.
pub open spec fn ends(hay: Seq<char>, needle: Seq<char>) -> bool {
    stands_at(hay, needle, hay.len() - needle.len())
}

fn chars_stand_at(h: &Vec<char>, n: &Vec<char>, i: usize) -> (r: bool)
    requires
        i + n.len() <= h.len(),
    ensures
        r == stands_at(h@, n@, i as int),
{
    let mut k: usize = 0;
    while k < n.len()
        invariant
            k <= n.len(),
            i + n.len() <= h.len(),
            forall|j: int| 0 <= j < k ==> h@[i + j] == n@[j],
        decreases n.len() - k,
    {
        if h[i + k] != n[k] {
            assert(h@.subrange(i as int, i + n@.len())[k as int] != n@[k as int]);
            return false;
        }
        k = k + 1;
    }
    assert(h@.subrange(i as int, i + n@.len()) =~= n@);
    true
}

/// The first position, in characters, at which `needle` stands in `hay`.
pub fn find(hay: &str, needle: &str) -> (r: Option<usize>)
    ensures
        match r {
            Some(i) => stands_at(hay@, needle@, i as int) && forall|j: int|
                0 <= j < i ==> !#[trigger] stands_at(hay@, needle@, j),
            None => !occurs(hay@, needle@),
        },
{
    let h = chars_of(hay);
    let n = chars_of(needle);
    if n.len() > h.len() {
        return None;
    }
    let last: usize = h.len() - n.len();
    let mut i: usize = 0;
    loop
        invariant
            h@ == hay@,
            n@ == needle@,
            last == h.len() - n.len(),
            i <= last,
            forall|j: int| 0 <= j < i ==> !#[trigger] stands_at(hay@, needle@, j),
        decreases last - i,
    {
        if chars_stand_at(&h, &n, i) {
            return Some(i);
        }
        if i == last {
            return None;
        }
        i = i + 1;
    }
}

/// Whether `needle` stands anywhere in `hay`.
pub fn contains(hay: &str, needle: &str) -> (r: bool)
    ensures
        r == occurs(hay@, needle@),
{
    find(hay, needle).is_some()
}

/// Whether `hay` begins with `needle`.
pub fn starts_with(hay: &str, needle: &str) -> (r: bool)
    ensures
        r == begins(hay@, needle@),
{
    let h = chars_of(hay);
    let n = chars_of(needle);
    n.len() <= h.len() && chars_stand_at(&h, &n, 0)
}

/// Whether `hay` ends with `needle`.
pub fn ends_with(hay: &str, needle: &str) -> (r: bool)
    ensures
        r == ends(hay@, needle@),
{
    let h = chars_of(hay);
    let n = chars_of(needle);
    n.len() <= h.len() && chars_stand_at(&h, &n, h.len() - n.len())
}

/// The part of `s` behind the last `sep`, or all of it where there is none.
pub open spec fn after_last(s: Seq<char>, sep: char) -> Seq<char>
    decreases s.len(),
{
    if s.len() == 0 || s.last() == sep {
        Seq::<char>::empty()
    } else {
        after_last(s.drop_last(), sep).push(s.last())
    }
}

/// The part of `s` behind the last `sep`, or all of it where there is none.
pub fn tail_after(s: &str, sep: char) -> (r: String)
    ensures
        r@ == after_last(s@, sep),
{
    let v = chars_of(s);
    let mut out = String::new();
    let mut i: usize = 0;
    while i < v.len()
        invariant
            v@ == s@,
            i <= v.len(),
            out@ == after_last(s@.take(i as int), sep),
        decreases v.len() - i,
    {
        if v[i] == sep {
            out = String::new();
        } else {
            out.push(v[i]);
        }
        i = i + 1;
        assert(s@.take(i as int).drop_last() == s@.take(i - 1));
    }
    assert(s@.take(i as int) == s@);
    out
}

/// What stands before and behind the last `sep`.
pub open spec fn split_last(s: Seq<char>, sep: char) -> Option<(Seq<char>, Seq<char>)>
    decreases s.len(),
{
    if s.len() == 0 {
        None
    } else if s.last() == sep {
        Some((s.drop_last(), Seq::<char>::empty()))
    } else {
        match split_last(s.drop_last(), sep) {
            Some((head, tail)) => Some((head, tail.push(s.last()))),
            None => None,
        }
    }
}

/// What stands before and behind the last `sep`.
pub fn rsplit_once(s: &str, sep: char) -> (r: Option<(String, String)>)
    ensures
        match r {
            Some((head, tail)) => split_last(s@, sep) == Some((head@, tail@)),
            None => split_last(s@, sep) is None,
        },
{
    let v = chars_of(s);
    let mut found: Option<(String, String)> = None;
    let mut i: usize = 0;
    while i < v.len()
        invariant
            v@ == s@,
            i <= v.len(),
            match found {
                Some((head, tail)) => split_last(s@.take(i as int), sep) == Some((head@, tail@)),
                None => split_last(s@.take(i as int), sep) is None,
            },
        decreases v.len() - i,
    {
        assert(s@.take(i + 1).drop_last() == s@.take(i as int));
        if v[i] == sep {
            let head = s.substring_char(0, i).to_owned();
            assert(head@ == s@.take(i as int));
            found = Some((head, String::new()));
        } else {
            found = match found {
                Some((head, tail)) => {
                    let mut longer = tail;
                    longer.push(v[i]);
                    Some((head, longer))
                },
                None => None,
            };
        }
        i = i + 1;
    }
    assert(s@.take(i as int) == s@);
    found
}

// ------------------------------------------------------------------
// Splitting
// ------------------------------------------------------------------

/// The pieces of `s` between the separators; one empty piece for an empty text.
pub open spec fn pieces(s: Seq<char>, sep: char) -> Seq<Seq<char>>
    decreases s.len(),
{
    if s.len() == 0 {
        seq![Seq::<char>::empty()]
    } else if s.last() == sep {
        pieces(s.drop_last(), sep).push(Seq::<char>::empty())
    } else {
        let head = pieces(s.drop_last(), sep);
        head.drop_last().push(head.last().push(s.last()))
    }
}

/// The pieces of `s` between the separators.
pub fn split(s: &str, sep: char) -> (r: Vec<String>)
    ensures
        texts(r@) == pieces(s@, sep),
        r.len() >= 1,
{
    let v = chars_of(s);
    let mut done: Vec<String> = Vec::new();
    let mut open = String::new();
    let mut i: usize = 0;
    while i < v.len()
        invariant
            v@ == s@,
            i <= v.len(),
            texts(done@).push(open@) == pieces(s@.take(i as int), sep),
        decreases v.len() - i,
    {
        let ghost before = texts(done@).push(open@);
        assert(s@.take(i + 1).drop_last() == s@.take(i as int));
        if v[i] == sep {
            done.push(open);
            assert(texts(done@) == before);
            open = String::new();
        } else {
            open.push(v[i]);
            assert(before.drop_last() == texts(done@));
        }
        i = i + 1;
    }
    assert(s@.take(i as int) == s@);
    let ghost whole = texts(done@).push(open@);
    done.push(open);
    assert(texts(done@) == whole);
    done
}

// ------------------------------------------------------------------
// Trimming
// ------------------------------------------------------------------

/// The classes of characters that are trimmed somewhere.
#[derive(Clone, Copy, PartialEq, Eq, Structural)]
pub enum CharClass {
    /// The Unicode property White_Space.
    White,
    /// `/`
    Slash,
    /// `/` and `\`
    Separator,
    /// `"`
    Quote,
}

/// The characters with the Unicode property White_Space.
pub open spec fn is_white(c: char) -> bool {
    let n = c as int;
    ||| 0x09 <= n <= 0x0d
    ||| n == 0x20
    ||| n == 0x85
    ||| n == 0xa0
    ||| n == 0x1680
    ||| 0x2000 <= n <= 0x200a
    ||| n == 0x2028
    ||| n == 0x2029
    ||| n == 0x202f
    ||| n == 0x205f
    ||| n == 0x3000
}

impl CharClass {
    /// Whether the class holds `c`.
    pub open spec fn holds(self, c: char) -> bool {
        match self {
            CharClass::White => is_white(c),
            CharClass::Slash => c == '/',
            CharClass::Separator => c == '/' || c == '\\',
            CharClass::Quote => c == '"',
        }
    }

    /// Whether the class holds `c`.
    pub fn has(self, c: char) -> (r: bool)
        ensures
            r == self.holds(c),
    {
        match self {
            CharClass::White => {
                let n: u32 = c as u32;
                (0x09 <= n && n <= 0x0d) || n == 0x20 || n == 0x85 || n == 0xa0 || n == 0x1680
                    || (0x2000 <= n && n <= 0x200a) || n == 0x2028 || n == 0x2029 || n == 0x202f
                    || n == 0x205f || n == 0x3000
            },
            CharClass::Slash => c == '/',
            CharClass::Separator => c == '/' || c == '\\',
            CharClass::Quote => c == '"',
        }
    }
}

/// `s` without its leading characters of the class.
pub open spec fn trimmed_start(s: Seq<char>, class: CharClass) -> Seq<char>
    decreases s.len(),
{
    if s.len() > 0 && class.holds(s[0]) {
        trimmed_start(s.drop_first(), class)
    } else {
        s
    }
}

/// `s` without its trailing characters of the class.
pub open spec fn trimmed_end(s: Seq<char>, class: CharClass) -> Seq<char>
    decreases s.len(),
{
    if s.len() > 0 && class.holds(s.last()) {
        trimmed_end(s.drop_last(), class)
    } else {
        s
    }
}

/// `s` without its leading and trailing characters of the class.
pub open spec fn trimmed(s: Seq<char>, class: CharClass) -> Seq<char> {
    trimmed_end(trimmed_start(s, class), class)
}

/// `s` without leading and trailing white space.
pub open spec fn stripped(s: Seq<char>) -> Seq<char> {
    trimmed(s, CharClass::White)
}

/// Whether nothing but white space stands in `s`.
pub open spec fn is_blank(s: Seq<char>) -> bool {
    stripped(s).len() == 0
}

/// `s` without its leading characters of the class.
pub fn trim_start(s: &str, class: CharClass) -> (r: String)
    ensures
        r@ == trimmed_start(s@, class),
{
    let v = chars_of(s);
    let mut i: usize = 0;
    assert(s@.skip(0) == s@);
    while i < v.len() && class.has(v[i])
        invariant
            v@ == s@,
            i <= v.len(),
            trimmed_start(s@.skip(i as int), class) == trimmed_start(s@, class),
        decreases v.len() - i,
    {
        assert(s@.skip(i as int).drop_first() == s@.skip(i + 1));
        i = i + 1;
    }
    assert(s@.skip(i as int) == s@.subrange(i as int, s@.len() as int));
    s.substring_char(i, v.len()).to_owned()
}

/// `s` without its trailing characters of the class.
pub fn trim_end(s: &str, class: CharClass) -> (r: String)
    ensures
        r@ == trimmed_end(s@, class),
{
    let v = chars_of(s);
    let mut n: usize = v.len();
    assert(s@.take(n as int) == s@);
    while n > 0 && class.has(v[n - 1])
        invariant
            v@ == s@,
            n <= v.len(),
            trimmed_end(s@.take(n as int), class) == trimmed_end(s@, class),
        decreases n,
    {
        assert(s@.take(n as int).drop_last() == s@.take(n - 1));
        n = n - 1;
    }
    assert(s@.take(n as int) == s@.subrange(0, n as int));
    s.substring_char(0, n).to_owned()
}

/// `s` without its leading and trailing characters of the class.
pub fn trim(s: &str, class: CharClass) -> (r: String)
    ensures
        r@ == trimmed(s@, class),
{
    let t = trim_start(s, class);
    trim_end(t.as_str(), class)
}

/// The part of `s` behind the last character of the class, or all of it.
pub open spec fn after_last_in(s: Seq<char>, class: CharClass) -> Seq<char>
    decreases s.len(),
{
    if s.len() == 0 || class.holds(s.last()) {
        Seq::<char>::empty()
    } else {
        after_last_in(s.drop_last(), class).push(s.last())
    }
}

/// The part of `s` behind the last character of the class, or all of it.
pub fn tail_after_in(s: &str, class: CharClass) -> (r: String)
    ensures
        r@ == after_last_in(s@, class),
{
    let v = chars_of(s);
    let mut out = String::new();
    let mut i: usize = 0;
    while i < v.len()
        invariant
            v@ == s@,
            i <= v.len(),
            out@ == after_last_in(s@.take(i as int), class),
        decreases v.len() - i,
    {
        if class.has(v[i]) {
            out = String::new();
        } else {
            out.push(v[i]);
        }
        i = i + 1;
        assert(s@.take(i as int).drop_last() == s@.take(i - 1));
    }
    assert(s@.take(i as int) == s@);
    out
}

/// Whether no character of the class stands in `s`.
pub open spec fn free_of(s: Seq<char>, class: CharClass) -> bool {
    forall|i: int| 0 <= i < s.len() ==> !class.holds(#[trigger] s[i])
}

/// Behind the last character of a class there is none of it.
pub proof fn lemma_after_last_in_is_free(s: Seq<char>, class: CharClass)
    ensures
        free_of(after_last_in(s, class), class),
    decreases s.len(),
{
    if s.len() > 0 && !class.holds(s.last()) {
        lemma_after_last_in_is_free(s.drop_last(), class);
    }
}

/// Text without any character of the class stands wholly behind the last one.
pub proof fn lemma_after_last_in_keeps(s: Seq<char>, class: CharClass)
    requires
        free_of(s, class),
    ensures
        after_last_in(s, class) == s,
    decreases s.len(),
{
    if s.len() > 0 {
        assert(!class.holds(s[s.len() - 1]));
        assert(free_of(s.drop_last(), class)) by {
            assert forall|i: int| 0 <= i < s.drop_last().len() implies !class.holds(
                #[trigger] s.drop_last()[i],
            ) by {
                assert(!class.holds(s[i]));
            }
        }
        lemma_after_last_in_keeps(s.drop_last(), class);
        assert(s.drop_last().push(s.last()) =~= s);
    } else {
        assert(after_last_in(s, class) =~= s);
    }
}

/// Trimming removes characters and adds none.
pub proof fn lemma_trimmed_is_free(s: Seq<char>, trimmed_class: CharClass, class: CharClass)
    requires
        free_of(s, class),
    ensures
        free_of(trimmed(s, trimmed_class), class),
{
    lemma_trimmed_start_is_free(s, trimmed_class, class);
    lemma_trimmed_end_is_free(trimmed_start(s, trimmed_class), trimmed_class, class);
}

proof fn lemma_trimmed_start_is_free(s: Seq<char>, trimmed_class: CharClass, class: CharClass)
    requires
        free_of(s, class),
    ensures
        free_of(trimmed_start(s, trimmed_class), class),
    decreases s.len(),
{
    if s.len() > 0 && trimmed_class.holds(s[0]) {
        assert(free_of(s.drop_first(), class)) by {
            assert forall|i: int| 0 <= i < s.drop_first().len() implies !class.holds(
                #[trigger] s.drop_first()[i],
            ) by {
                assert(!class.holds(s[i + 1]));
            }
        }
        lemma_trimmed_start_is_free(s.drop_first(), trimmed_class, class);
    }
}

proof fn lemma_trimmed_end_is_free(s: Seq<char>, trimmed_class: CharClass, class: CharClass)
    requires
        free_of(s, class),
    ensures
        free_of(trimmed_end(s, trimmed_class), class),
    decreases s.len(),
{
    if s.len() > 0 && trimmed_class.holds(s.last()) {
        assert(free_of(s.drop_last(), class)) by {
            assert forall|i: int| 0 <= i < s.drop_last().len() implies !class.holds(
                #[trigger] s.drop_last()[i],
            ) by {
                assert(!class.holds(s[i]));
            }
        }
        lemma_trimmed_end_is_free(s.drop_last(), trimmed_class, class);
    }
}

/// Trimming twice is trimming once.
pub proof fn lemma_trimmed_twice(s: Seq<char>, class: CharClass)
    ensures
        trimmed(trimmed(s, class), class) == trimmed(s, class),
{
    let t = trimmed_start(s, class);
    lemma_trimmed_start_stops(s, class);
    lemma_trimmed_end_keeps_start(t, class);
    lemma_trimmed_end_stops(t, class);
}

proof fn lemma_trimmed_start_stops(s: Seq<char>, class: CharClass)
    ensures
        ({
            let t = trimmed_start(s, class);
            t.len() == 0 || !class.holds(t[0])
        }),
    decreases s.len(),
{
    if s.len() > 0 && class.holds(s[0]) {
        lemma_trimmed_start_stops(s.drop_first(), class);
    }
}

proof fn lemma_trimmed_end_stops(s: Seq<char>, class: CharClass)
    ensures
        ({
            let t = trimmed_end(s, class);
            t.len() == 0 || !class.holds(t.last())
        }),
    decreases s.len(),
{
    if s.len() > 0 && class.holds(s.last()) {
        lemma_trimmed_end_stops(s.drop_last(), class);
    }
}

proof fn lemma_trimmed_end_keeps_start(s: Seq<char>, class: CharClass)
    ensures
        ({
            let t = trimmed_end(s, class);
            t.len() > 0 ==> t[0] == s[0]
        }),
    decreases s.len(),
{
    if s.len() > 0 && class.holds(s.last()) {
        lemma_trimmed_end_keeps_start(s.drop_last(), class);
    }
}

/// Whether nothing but white space stands in `s`.
pub fn blank(s: &str) -> (r: bool)
    ensures
        r == is_blank(s@),
{
    trim(s, CharClass::White).as_str().is_empty()
}

// ------------------------------------------------------------------
// ASCII case
// ------------------------------------------------------------------

/// The ASCII lowercase form of a character.
pub open spec fn lower_char(c: char) -> char {
    if 'A' <= c <= 'Z' {
        (c as int + 32) as char
    } else {
        c
    }
}

/// The ASCII lowercase form of a text.
pub open spec fn lowered(s: Seq<char>) -> Seq<char> {
    s.map_values(|c: char| lower_char(c))
}

/// The ASCII lowercase form of a character.
pub fn ascii_lower_char(c: char) -> (r: char)
    ensures
        r == lower_char(c),
{
    if c >= 'A' && c <= 'Z' {
        let n: u8 = c as u8;
        (n + 32) as char
    } else {
        c
    }
}

/// The ASCII lowercase form of a text.
pub fn ascii_lower(s: &str) -> (r: String)
    ensures
        r@ == lowered(s@),
{
    let v = chars_of(s);
    let mut out = String::new();
    let mut i: usize = 0;
    while i < v.len()
        invariant
            v@ == s@,
            i <= v.len(),
            out@ == lowered(s@).take(i as int),
        decreases v.len() - i,
    {
        out.push(ascii_lower_char(v[i]));
        i = i + 1;
        assert(lowered(s@).take(i as int) == lowered(s@).take(i - 1).push(lowered(s@)[i - 1]));
    }
    assert(lowered(s@).take(i as int) == lowered(s@));
    out
}

/// Whether two texts differ at most in ASCII case.
pub open spec fn same_ignoring_case(a: Seq<char>, b: Seq<char>) -> bool {
    lowered(a) == lowered(b)
}

/// Whether two texts differ at most in ASCII case.
pub fn eq_ignore_case(a: &str, b: &str) -> (r: bool)
    ensures
        r == same_ignoring_case(a@, b@),
{
    ascii_lower(a) == ascii_lower(b)
}

// ------------------------------------------------------------------
// Laws
// ------------------------------------------------------------------

/// Trimming the beginning takes off all characters of the class there, and
/// nothing else.
pub proof fn law_trimming_takes_off_the_beginning(s: Seq<char>, class: CharClass)
    ensures
        ({
            let t = trimmed_start(s, class);
            let n = s.len() - t.len();
            &&& n >= 0 && t == s.skip(n)
            &&& forall|i: int| 0 <= i < n ==> class.holds(#[trigger] s[i])
            &&& t.len() > 0 ==> !class.holds(t[0])
        }),
    decreases s.len(),
{
    if s.len() > 0 && class.holds(s[0]) {
        let rest = s.drop_first();
        law_trimming_takes_off_the_beginning(rest, class);
        let t = trimmed_start(rest, class);
        let n = s.len() - t.len();
        assert(s.skip(n) =~= rest.skip(n - 1));
        assert forall|i: int| 0 <= i < n implies class.holds(#[trigger] s[i]) by {
            if i > 0 {
                assert(rest[i - 1] == s[i]);
            }
        }
    } else {
        assert(s.skip(0) =~= s);
    }
}

/// Trimming the end takes off all characters of the class there, and nothing
/// else.
pub proof fn law_trimming_takes_off_the_end(s: Seq<char>, class: CharClass)
    ensures
        ({
            let t = trimmed_end(s, class);
            &&& t.len() <= s.len() && t == s.take(t.len() as int)
            &&& forall|i: int| t.len() <= i < s.len() ==> class.holds(#[trigger] s[i])
            &&& t.len() > 0 ==> !class.holds(t.last())
        }),
    decreases s.len(),
{
    if s.len() > 0 && class.holds(s.last()) {
        let rest = s.drop_last();
        law_trimming_takes_off_the_end(rest, class);
        let t = trimmed_end(rest, class);
        assert(s.take(t.len() as int) =~= rest.take(t.len() as int));
        assert forall|i: int| t.len() <= i < s.len() implies class.holds(#[trigger] s[i]) by {
            if i < rest.len() {
                assert(rest[i] == s[i]);
            }
        }
    } else {
        assert(s.take(s.len() as int) =~= s);
    }
}

proof fn lemma_trimmed_start_of_class(a: Seq<char>, core: Seq<char>, class: CharClass)
    requires
        forall|i: int| 0 <= i < a.len() ==> class.holds(#[trigger] a[i]),
    ensures
        trimmed_start(a + core, class) == trimmed_start(core, class),
    decreases a.len(),
{
    if a.len() == 0 {
        assert(a + core =~= core);
    } else {
        let rest = a.drop_first();
        assert forall|i: int| 0 <= i < rest.len() implies class.holds(#[trigger] rest[i]) by {
            assert(rest[i] == a[i + 1]);
        }
        lemma_trimmed_start_of_class(rest, core, class);
        assert((a + core)[0] == a[0]);
        assert((a + core).drop_first() =~= rest + core);
    }
}

proof fn lemma_trimmed_end_of_class(core: Seq<char>, b: Seq<char>, class: CharClass)
    requires
        forall|i: int| 0 <= i < b.len() ==> class.holds(#[trigger] b[i]),
    ensures
        trimmed_end(core + b, class) == trimmed_end(core, class),
    decreases b.len(),
{
    if b.len() == 0 {
        assert(core + b =~= core);
    } else {
        let rest = b.drop_last();
        assert forall|i: int| 0 <= i < rest.len() implies class.holds(#[trigger] rest[i]) by {
            assert(rest[i] == b[i]);
        }
        assert(class.holds(b[b.len() - 1]));
        lemma_trimmed_end_of_class(core, rest, class);
        assert((core + b).last() == b.last());
        assert((core + b).drop_last() =~= core + rest);
    }
}

/// Whatever stands around a text, trimming gives the text.
pub proof fn law_trimming_finds_the_core(
    a: Seq<char>,
    core: Seq<char>,
    b: Seq<char>,
    class: CharClass,
)
    requires
        forall|i: int| 0 <= i < a.len() ==> class.holds(#[trigger] a[i]),
        forall|i: int| 0 <= i < b.len() ==> class.holds(#[trigger] b[i]),
        core.len() > 0 ==> !class.holds(core[0]) && !class.holds(core.last()),
    ensures
        trimmed(a + core + b, class) == core,
{
    assert(a + core + b =~= a + (core + b));
    lemma_trimmed_start_of_class(a, core + b, class);
    if core.len() == 0 {
        assert(core + b =~= b);
        let none = Seq::<char>::empty();
        assert(b + none =~= b);
        lemma_trimmed_start_of_class(b, none, class);
        assert(core =~= none);
    } else {
        assert((core + b)[0] == core[0]);
        lemma_trimmed_end_of_class(core, b, class);
    }
}

/// The classes hold these characters; of the ASCII ones white space is the
/// space and the characters from tab to carriage return.
pub proof fn law_classes_hold_their_characters(c: char)
    ensures
        CharClass::Slash.holds(c) <==> c == '/',
        CharClass::Separator.holds(c) <==> c == '/' || c == '\\',
        CharClass::Quote.holds(c) <==> c == '"',
        (c as int) < 0x80 ==> (CharClass::White.holds(c) <==> c as int == 0x20 || 0x09 <= c as int
            <= 0x0d),
        (c as int) >= 0x80 ==> (CharClass::White.holds(c) <==> c as int == 0x85 || c as int == 0xa0
            || c as int == 0x1680 || 0x2000 <= c as int <= 0x200a || c as int == 0x2028 || c as int
            == 0x2029 || c as int == 0x202f || c as int == 0x205f || c as int == 0x3000),
{
}

/// What stands behind the last separator holds none, and the text ends with
/// it; what stands before it ends with the separator.
pub proof fn law_tails_stand_behind_the_last_separator(s: Seq<char>, sep: char)
    ensures
        ({
            let t = after_last(s, sep);
            let n = s.len() - t.len();
            &&& n >= 0 && t == s.skip(n)
            &&& !t.contains(sep)
            &&& n > 0 ==> s[n - 1] == sep
        }),
    decreases s.len(),
{
    if s.len() > 0 && s.last() != sep {
        let rest = s.drop_last();
        law_tails_stand_behind_the_last_separator(rest, sep);
        let r = after_last(rest, sep);
        let t = after_last(s, sep);
        let n = s.len() - t.len();
        assert(t =~= s.skip(n));
        assert forall|i: int| 0 <= i < t.len() implies t[i] != sep by {
            if i < r.len() {
                assert(r[i] == t[i]);
                assert(r.contains(r[i]));
            }
        }
        if n > 0 {
            assert(rest[n - 1] == s[n - 1]);
        }
    } else {
        assert(after_last(s, sep) =~= s.skip(s.len() as int));
    }
}

/// A text is split at its last separator where it has one: what stands
/// before it, the separator and what stands behind it make up the text.
pub proof fn law_texts_are_split_at_the_last_separator(s: Seq<char>, sep: char)
    ensures
        split_last(s, sep) is None <==> !s.contains(sep),
        split_last(s, sep) matches Some((head, tail)) ==> s == head + seq![sep] + tail
            && !tail.contains(sep),
    decreases s.len(),
{
    if s.len() > 0 {
        let rest = s.drop_last();
        assert(s =~= rest.push(s.last()));
        if s.last() == sep {
            assert(s[s.len() - 1] == sep);
            assert(s =~= rest + seq![sep] + Seq::<char>::empty());
        } else {
            law_texts_are_split_at_the_last_separator(rest, sep);
            if rest.contains(sep) {
                let i = choose|i: int| 0 <= i < rest.len() && rest[i] == sep;
                assert(s[i] == sep);
            }
            match split_last(rest, sep) {
                Some((head, tail)) => {
                    assert(s =~= head + seq![sep] + tail.push(s.last()));
                    let t = tail.push(s.last());
                    assert forall|i: int| 0 <= i < t.len() implies t[i] != sep by {
                        if i < tail.len() {
                            assert(tail.contains(tail[i]));
                        }
                    }
                },
                None => {
                    assert forall|i: int| 0 <= i < s.len() implies s[i] != sep by {
                        if i < rest.len() {
                            assert(rest.contains(rest[i]));
                        }
                    }
                },
            }
        }
    }
}

/// The pieces of a text hold no separator, and with the separator between
/// them they are the text.
pub proof fn law_pieces_make_up_the_text(s: Seq<char>, sep: char)
    ensures
        pieces(s, sep).len() > 0,
        joined(pieces(s, sep), seq![sep]) == s,
        forall|i: int| 0 <= i < pieces(s, sep).len() ==> !(#[trigger] pieces(s, sep)[i]).contains(
            sep,
        ),
    decreases s.len(),
{
    let p = pieces(s, sep);
    if s.len() == 0 {
        assert(joined(p, seq![sep]) =~= s);
    } else {
        let q = pieces(s.drop_last(), sep);
        law_pieces_make_up_the_text(s.drop_last(), sep);
        assert(s =~= s.drop_last().push(s.last()));
        if s.last() == sep {
            assert(p.drop_last() =~= q);
            assert(joined(p, seq![sep]) =~= s.drop_last() + seq![sep] + Seq::<char>::empty());
            assert(joined(p, seq![sep]) =~= s);
        } else {
            assert(p.drop_last() =~= q.drop_last());
            if q.len() == 1 {
                assert(joined(q, seq![sep]) == q[0]);
                assert(joined(p, seq![sep]) =~= s);
            } else {
                let head = joined(q.drop_last(), seq![sep]);
                assert(joined(q, seq![sep]) == head + seq![sep] + q.last());
                assert(joined(p, seq![sep]) == head + seq![sep] + q.last().push(s.last()));
                assert(joined(p, seq![sep]) =~= s);
            }
        }
        assert forall|i: int| 0 <= i < p.len() implies !(#[trigger] p[i]).contains(sep) by {
            if i < q.len() - 1 || (s.last() == sep && i < q.len()) {
                assert(p[i] == q[i]);
            } else if s.last() != sep {
                let x = q.last();
                assert(q[q.len() - 1] == x);
                let y = x.push(s.last());
                assert(p[i] == y);
                assert forall|j: int| 0 <= j < y.len() implies y[j] != sep by {
                    if j < x.len() {
                        assert(x.contains(x[j]));
                    }
                }
            }
        }
    }
}

/// A text before which no separator stands is the first piece, and what
/// stands behind the separator is cut as if it stood alone.
pub proof fn law_first_piece_ends_at_the_separator(a: Seq<char>, b: Seq<char>, sep: char)
    requires
        !a.contains(sep),
    ensures
        pieces(a, sep) == seq![a],
        pieces(a + seq![sep] + b, sep) == seq![a] + pieces(b, sep),
    decreases b.len(),
{
    if b.len() == 0 {
        lemma_only_piece(a, sep);
        let s = a + seq![sep] + b;
        assert(s.drop_last() =~= a);
        assert(pieces(s, sep) =~= seq![a] + pieces(b, sep));
    } else {
        let c = b.drop_last();
        law_first_piece_ends_at_the_separator(a, c, sep);
        law_pieces_make_up_the_text(c, sep);
        let s = a + seq![sep] + b;
        assert(s.drop_last() =~= a + seq![sep] + c);
        assert(s.last() == b.last());
        let head = seq![a] + pieces(c, sep);
        assert(head.last() == pieces(c, sep).last());
        assert(head.drop_last() =~= seq![a] + pieces(c, sep).drop_last());
        assert(pieces(s, sep) =~= seq![a] + pieces(b, sep));
    }
}

proof fn lemma_only_piece(a: Seq<char>, sep: char)
    requires
        !a.contains(sep),
    ensures
        pieces(a, sep) == seq![a],
    decreases a.len(),
{
    if a.len() == 0 {
        assert(a =~= Seq::<char>::empty());
        assert(pieces(a, sep) =~= seq![a]);
    } else {
        let rest = a.drop_last();
        assert(a[a.len() - 1] != sep) by {
            assert(a.contains(a[a.len() - 1]));
        }
        assert(!rest.contains(sep)) by {
            if rest.contains(sep) {
                let i = choose|i: int| 0 <= i < rest.len() && rest[i] == sep;
                assert(a[i] == sep);
            }
        }
        lemma_only_piece(rest, sep);
        let head = seq![rest];
        assert(head.drop_last().push(head.last().push(a.last())) =~= seq![a]) by {
            assert(rest.push(a.last()) =~= a);
        }
    }
}

/// A text occurs in another where that is made of something, the text and
/// something; it begins or ends with it where nothing stands before or
/// behind.
pub proof fn law_occurrence_is_being_a_part(hay: Seq<char>, needle: Seq<char>)
    ensures
        occurs(hay, needle) <==> exists|a: Seq<char>, b: Seq<char>|
            hay == #[trigger] (a + needle + b),
        begins(hay, needle) <==> exists|b: Seq<char>| hay == #[trigger] (needle + b),
        ends(hay, needle) <==> exists|a: Seq<char>| hay == #[trigger] (a + needle),
{
    if occurs(hay, needle) {
        let i = choose|i: int| stands_at(hay, needle, i);
        let a = hay.take(i);
        let b = hay.skip(i + needle.len());
        assert(hay =~= a + needle + b);
    }
    if exists|a: Seq<char>, b: Seq<char>| hay == #[trigger] (a + needle + b) {
        let (a, b) = choose|a: Seq<char>, b: Seq<char>| hay == #[trigger] (a + needle + b);
        assert(hay.subrange(a.len() as int, (a.len() + needle.len()) as int) =~= needle);
        assert(stands_at(hay, needle, a.len() as int));
    }
    if begins(hay, needle) {
        let b = hay.skip(needle.len() as int);
        assert(hay =~= needle + b);
    }
    if exists|b: Seq<char>| hay == #[trigger] (needle + b) {
        let b = choose|b: Seq<char>| hay == #[trigger] (needle + b);
        assert(hay.subrange(0, needle.len() as int) =~= needle);
    }
    if ends(hay, needle) {
        let a = hay.take(hay.len() - needle.len());
        assert(hay =~= a + needle);
    }
    if exists|a: Seq<char>| hay == #[trigger] (a + needle) {
        let a = choose|a: Seq<char>| hay == #[trigger] (a + needle);
        assert(hay.subrange(hay.len() - needle.len(), hay.len() as int) =~= needle);
    }
}

/// The ASCII lowercase form changes the ASCII capitals alone, each to its own
/// small letter.
pub proof fn law_lowering_changes_capitals_alone(s: Seq<char>)
    ensures
        lowered(s).len() == s.len(),
        lowered(lowered(s)) == lowered(s),
        forall|i: int|
            0 <= i < s.len() ==> (#[trigger] lowered(s)[i]) as int == (if 'A' <= s[i] && s[i] <= 'Z' {
                s[i] as int - 'A' as int + 'a' as int
            } else {
                s[i] as int
            }),
{
    assert forall|i: int| 0 <= i < s.len() implies (#[trigger] lowered(s)[i]) as int == (if 'A'
        <= s[i] && s[i] <= 'Z' {
        s[i] as int - 'A' as int + 'a' as int
    } else {
        s[i] as int
    }) by {
        assert(lowered(s)[i] == lower_char(s[i]));
    }
    assert(lowered(lowered(s)) =~= lowered(s));
}

/// What stands before the first separator, and what stands behind it, can be
/// told from the text.
pub proof fn law_first_separator_parts_the_text(
    a: Seq<char>,
    r: Seq<char>,
    b: Seq<char>,
    s: Seq<char>,
    sep: char,
)
    requires
        !a.contains(sep),
        !b.contains(sep),
        a + seq![sep] + r == b + seq![sep] + s,
    ensures
        a == b,
        r == s,
{
    let x = a + seq![sep] + r;
    let y = b + seq![sep] + s;
    if a.len() < b.len() {
        assert(x[a.len() as int] == sep);
        assert(y[a.len() as int] == b[a.len() as int]);
        assert(b.contains(b[a.len() as int]));
    } else if b.len() < a.len() {
        assert(y[b.len() as int] == sep);
        assert(x[b.len() as int] == a[b.len() as int]);
        assert(a.contains(a[b.len() as int]));
    }
    assert(a =~= x.take(a.len() as int));
    assert(b =~= y.take(b.len() as int));
    assert(r =~= x.skip(a.len() as int + 1));
    assert(s =~= y.skip(b.len() as int + 1));
}

/// A text that is missing counts as empty where a text is wanted.
pub proof fn law_missing_texts_are_empty(s: String)
    ensures
        text_or_empty(Some(s)) == s@,
        text_or_empty(None).len() == 0,
        opt_text(Some(s)) == Some(s@),
        opt_text(None) is None,
{
}

/// A list has a text where one of its texts is the same; its texts differ
/// where none of them stands twice.
pub proof fn law_lists_have_their_texts(v: Seq<String>, s: String, x: Seq<char>)
    ensures
        !listed(Seq::<String>::empty(), x),
        listed(v.push(s), x) <==> listed(v, x) || s@ == x,
        all_differ(v.push(s)) <==> all_differ(v) && !listed(v, s@),
        set_of(v).contains(x) <==> listed(v, x),
{
    let more = v.push(s);
    if listed(v, x) {
        let i = choose|i: int| 0 <= i < v.len() && #[trigger] v[i]@ == x;
        assert(more[i]@ == x);
    }
    if s@ == x {
        assert(more[v.len() as int]@ == x);
    }
    if listed(more, x) {
        let i = choose|i: int| 0 <= i < more.len() && #[trigger] more[i]@ == x;
        if i < v.len() {
            assert(v[i]@ == x);
        }
    }
    if all_differ(more) {
        assert forall|i: int, j: int| 0 <= i < j < v.len() implies #[trigger] v[i]@
            != #[trigger] v[j]@ by {
            assert(more[i]@ != more[j]@);
        }
        if listed(v, s@) {
            let i = choose|i: int| 0 <= i < v.len() && #[trigger] v[i]@ == s@;
            assert(more[i]@ != more[v.len() as int]@);
        }
    }
    if all_differ(v) && !listed(v, s@) {
        assert forall|i: int, j: int| 0 <= i < j < more.len() implies #[trigger] more[i]@
            != #[trigger] more[j]@ by {
            if j < v.len() {
                assert(v[i]@ != v[j]@);
            } else {
                assert(v[i]@ != s@);
            }
        }
    }
}

} // verus!
