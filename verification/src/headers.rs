//! Header lists and the rule by which one list overrides another.
//!
//! Header names are compared without regard to the case of ASCII letters.

use vstd::prelude::*;
use crate::text::copy;

verus! {

/// One header: a name and a value.
#[derive(Debug)]
pub struct Header {
    pub name: Vec<u8>,
    pub value: Vec<u8>,
}

/// A header, as plain values.
pub struct HeaderView {
    pub name: Seq<u8>,
    pub value: Seq<u8>,
}

impl View for Header {
    type V = HeaderView;

    open spec fn view(&self) -> HeaderView {
        HeaderView { name: self.name@, value: self.value@ }
    }
}

/// The headers of `headers`, as plain values.
pub open spec fn header_views(headers: Seq<Header>) -> Seq<HeaderView> {
    Seq::new(headers.len(), |i: int| headers[i]@)
}

/// The lower-case form of an ASCII letter; any other byte itself.
pub open spec fn lower(b: u8) -> u8 {
    if 65 <= b <= 90 {
        (b + 32) as u8
    } else {
        b
    }
}

/// `text` with every ASCII letter in lower case.
pub open spec fn lowered(text: Seq<u8>) -> Seq<u8> {
    Seq::new(text.len(), |i: int| lower(text[i]))
}

/// Whether two header names are the same but for the case of letters.
pub open spec fn same_name(a: Seq<u8>, b: Seq<u8>) -> bool {
    a.len() == b.len() && forall|i: int| 0 <= i < a.len() ==> lower(#[trigger] a[i]) == lower(b[i])
}

/// Whether some header of `headers` has the name `name`.
pub open spec fn has_name(headers: Seq<HeaderView>, name: Seq<u8>) -> bool {
    exists|i: int| 0 <= i < headers.len() && same_name((#[trigger] headers[i]).name, name)
}

/// The headers of `base` whose name no header of `over` has, in order.
pub open spec fn not_overridden(base: Seq<HeaderView>, over: Seq<HeaderView>) -> Seq<HeaderView>
    decreases base.len(),
{
    if base.len() == 0 {
        Seq::empty()
    } else if has_name(over, base.last().name) {
        not_overridden(base.drop_last(), over)
    } else {
        not_overridden(base.drop_last(), over).push(base.last())
    }
}

/// `base` overridden by `over`: the headers of `base` whose name `over` does
/// not use, then all of `over`.
pub open spec fn overlay(base: Seq<HeaderView>, over: Seq<HeaderView>) -> Seq<HeaderView> {
    not_overridden(base, over) + over
}

/// The value of the last header of `headers` with the name `name`.
pub open spec fn lookup(headers: Seq<HeaderView>, name: Seq<u8>) -> Option<Seq<u8>>
    decreases headers.len(),
{
    if headers.len() == 0 {
        None
    } else if same_name(headers.last().name, name) {
        Some(headers.last().value)
    } else {
        lookup(headers.drop_last(), name)
    }
}

/// The characters that a header name is made of: letters, digits and
/// ``!#$%&'*+-.^_`|~``.
pub open spec fn is_token_byte(b: u8) -> bool {
    (48 <= b <= 57) || (65 <= b <= 90) || (97 <= b <= 122) || b == 33 || (35 <= b <= 39) || b == 42
        || b == 43 || b == 45 || b == 46 || b == 94 || b == 95 || b == 96 || b == 124 || b == 126
}

/// The bytes that a header value may hold: tab and everything from space on
/// but DEL.
pub open spec fn is_value_byte(b: u8) -> bool {
    b == 9 || (32 <= b && b != 127)
}

/// A header that can be sent: its name is a non-empty token and its value
/// holds no control character, so that it cannot break out of its line.
pub open spec fn valid_header(h: HeaderView) -> bool {
    &&& h.name.len() > 0
    &&& forall|i: int| 0 <= i < h.name.len() ==> is_token_byte(#[trigger] h.name[i])
    &&& forall|i: int| 0 <= i < h.value.len() ==> is_value_byte(#[trigger] h.value[i])
}

/// Whether every header of `headers` can be sent.
pub open spec fn all_valid(headers: Seq<HeaderView>) -> bool {
    forall|i: int| 0 <= i < headers.len() ==> valid_header(#[trigger] headers[i])
}

/// The lower-case form of an ASCII letter; any other byte itself.
fn to_lower(b: u8) -> (r: u8)
    ensures
        r == lower(b),
{
    if 65 <= b && b <= 90 {
        b + 32
    } else {
        b
    }
}

/// `text` with every ASCII letter in lower case.
pub fn lowercase(text: &[u8]) -> (r: Vec<u8>)
    ensures
        r@ == lowered(text@),
{
    let mut out: Vec<u8> = Vec::new();
    let mut i: usize = 0;
    while i < text.len()
        invariant
            i <= text.len(),
            out@.len() == i,
            forall|j: int| 0 <= j < i ==> out@[j] == lower(text@[j]),
        decreases text.len() - i,
    {
        out.push(to_lower(text[i]));
        i += 1;
    }
    assert(out@ =~= lowered(text@));
    out
}

/// Whether two header names are the same but for the case of letters.
pub fn names_match(a: &[u8], b: &[u8]) -> (r: bool)
    ensures
        r == same_name(a@, b@),
{
    if a.len() != b.len() {
        return false;
    }
    let mut i: usize = 0;
    while i < a.len()
        invariant
            i <= a.len(),
            a.len() == b.len(),
            forall|j: int| 0 <= j < i ==> lower(#[trigger] a@[j]) == lower(b@[j]),
        decreases a.len() - i,
    {
        if to_lower(a[i]) != to_lower(b[i]) {
            return false;
        }
        i += 1;
    }
    true
}

/// Whether some header of `headers` has the name `name`.
pub fn contains_name(headers: &Vec<Header>, name: &[u8]) -> (r: bool)
    ensures
        r == has_name(header_views(headers@), name@),
{
    let mut i: usize = 0;
    while i < headers.len()
        invariant
            i <= headers.len(),
            forall|j: int|
                0 <= j < i ==> !same_name((#[trigger] header_views(headers@)[j]).name, name@),
        decreases headers.len() - i,
    {
        if names_match(headers[i].name.as_slice(), name) {
            assert(same_name(header_views(headers@)[i as int].name, name@));
            return true;
        }
        i += 1;
    }
    false
}

/// The value of the last header of `headers` with the name `name`.
pub fn find_value<'a>(headers: &'a Vec<Header>, name: &[u8]) -> (r: Option<&'a [u8]>)
    ensures
        match r {
            Some(value) => lookup(header_views(headers@), name@) == Some(value@),
            None => lookup(header_views(headers@), name@).is_none(),
        },
{
    let mut i: usize = headers.len();
    assert(header_views(headers@).subrange(0, i as int) =~= header_views(headers@));
    while i > 0
        invariant
            i <= headers.len(),
            lookup(header_views(headers@), name@) == lookup(
                header_views(headers@).subrange(0, i as int),
                name@,
            ),
        decreases i,
    {
        proof {
            let part = header_views(headers@).subrange(0, i as int);
            assert(part.drop_last() =~= header_views(headers@).subrange(0, i - 1));
            assert(part.last() == headers@[i - 1]@);
        }
        if names_match(headers[i - 1].name.as_slice(), name) {
            return Some(headers[i - 1].value.as_slice());
        }
        i -= 1;
    }
    None
}

/// A second header with the same name and value.
pub fn copy_header(h: &Header) -> (r: Header)
    ensures
        r@ == h@,
{
    Header { name: copy(h.name.as_slice()), value: copy(h.value.as_slice()) }
}

/// Appends copies of the headers of `tail` to `out`.
pub fn push_headers(out: &mut Vec<Header>, tail: &Vec<Header>)
    ensures
        header_views(final(out)@) == header_views(old(out)@) + header_views(tail@),
{
    let mut i: usize = 0;
    assert(header_views(out@) =~= header_views(old(out)@) + header_views(tail@).subrange(0, 0));
    while i < tail.len()
        invariant
            i <= tail.len(),
            header_views(out@) == header_views(old(out)@) + header_views(tail@).subrange(
                0,
                i as int,
            ),
        decreases tail.len() - i,
    {
        let ghost before = out@;
        out.push(copy_header(&tail[i]));
        i += 1;
        assert(header_views(out@) =~= header_views(before).push(tail@[i - 1]@));
        assert(header_views(out@) =~= header_views(old(out)@) + header_views(tail@).subrange(
            0,
            i as int,
        ));
    }
    assert(header_views(tail@).subrange(0, tail@.len() as int) =~= header_views(tail@));
}

/// `base` overridden by `over`.
pub fn merge(base: &Vec<Header>, over: &Vec<Header>) -> (r: Vec<Header>)
    ensures
        header_views(r@) == overlay(header_views(base@), header_views(over@)),
{
    let mut out: Vec<Header> = Vec::new();
    let mut i: usize = 0;
    assert(header_views(base@).subrange(0, 0) =~= Seq::<HeaderView>::empty());
    assert(header_views(out@) =~= Seq::<HeaderView>::empty());
    while i < base.len()
        invariant
            i <= base.len(),
            header_views(out@) == not_overridden(
                header_views(base@).subrange(0, i as int),
                header_views(over@),
            ),
        decreases base.len() - i,
    {
        proof {
            let part = header_views(base@).subrange(0, i + 1);
            assert(part.drop_last() =~= header_views(base@).subrange(0, i as int));
            assert(part.last() == base@[i as int]@);
        }
        if !contains_name(over, base[i].name.as_slice()) {
            let ghost before = out@;
            out.push(copy_header(&base[i]));
            assert(header_views(out@) =~= header_views(before).push(base@[i as int]@));
        }
        i += 1;
    }
    assert(header_views(base@).subrange(0, base@.len() as int) =~= header_views(base@));
    push_headers(&mut out, over);
    out
}

/// Whether `h` can be sent.
pub fn header_is_valid(h: &Header) -> (r: bool)
    ensures
        r == valid_header(h@),
{
    if h.name.len() == 0 {
        return false;
    }
    let mut i: usize = 0;
    while i < h.name.len()
        invariant
            i <= h.name.len(),
            forall|j: int| 0 <= j < i ==> is_token_byte(#[trigger] h.name@[j]),
        decreases h.name.len() - i,
    {
        let b: u8 = h.name[i];
        let token = (48 <= b && b <= 57) || (65 <= b && b <= 90) || (97 <= b && b <= 122) || b
            == 33 || (35 <= b && b <= 39) || b == 42 || b == 43 || b == 45 || b == 46 || b == 94
            || b == 95 || b == 96 || b == 124 || b == 126;
        if !token {
            assert(!is_token_byte(h@.name[i as int]));
            return false;
        }
        i += 1;
    }
    let mut k: usize = 0;
    while k < h.value.len()
        invariant
            k <= h.value.len(),
            h@.name.len() > 0,
            forall|j: int| 0 <= j < h@.name.len() ==> is_token_byte(#[trigger] h@.name[j]),
            forall|j: int| 0 <= j < k ==> is_value_byte(#[trigger] h.value@[j]),
        decreases h.value.len() - k,
    {
        let b: u8 = h.value[k];
        if !(b == 9 || (32 <= b && b != 127)) {
            assert(!is_value_byte(h@.value[k as int]));
            return false;
        }
        k += 1;
    }
    true
}

/// Whether every header of `headers` can be sent.
pub fn headers_are_valid(headers: &Vec<Header>) -> (r: bool)
    ensures
        r == all_valid(header_views(headers@)),
{
    let mut i: usize = 0;
    while i < headers.len()
        invariant
            i <= headers.len(),
            forall|j: int| 0 <= j < i ==> valid_header(#[trigger] header_views(headers@)[j]),
        decreases headers.len() - i,
    {
        if !header_is_valid(&headers[i]) {
            assert(!valid_header(header_views(headers@)[i as int]));
            return false;
        }
        i += 1;
    }
    true
}

/// Every header of an overlay comes from one of the two lists, and every
/// header of the overriding list is in it.
pub proof fn lemma_overlay_members(base: Seq<HeaderView>, over: Seq<HeaderView>)
    ensures
        forall|h: HeaderView| #[trigger]
            overlay(base, over).contains(h) ==> base.contains(h) || over.contains(h),
        forall|h: HeaderView| over.contains(h) ==> #[trigger] overlay(base, over).contains(h),
        forall|h: HeaderView|
            base.contains(h) && !has_name(over, h.name) ==> #[trigger] overlay(base, over).contains(
                h,
            ),
{
    lemma_not_overridden_members(base, over);
    let kept = not_overridden(base, over);
    assert forall|h: HeaderView| #[trigger]
        overlay(base, over).contains(h) implies base.contains(h) || over.contains(h) by {
        let i = choose|i: int| 0 <= i < overlay(base, over).len() && overlay(base, over)[i] == h;
        if i < kept.len() {
            assert(kept[i] == h);
            assert(kept.contains(h));
        } else {
            assert(over[i - kept.len()] == h);
        }
    }
    assert forall|h: HeaderView| over.contains(h) implies #[trigger] overlay(base, over).contains(
        h,
    ) by {
        let i = choose|i: int| 0 <= i < over.len() && over[i] == h;
        assert(overlay(base, over)[kept.len() + i] == h);
    }
    assert forall|h: HeaderView| base.contains(h) && !has_name(over, h.name) implies #[trigger]
        overlay(base, over).contains(h) by {
        assert(kept.contains(h));
        let i = choose|i: int| 0 <= i < kept.len() && kept[i] == h;
        assert(overlay(base, over)[i] == h);
    }
}

/// A sequence with one more element holds what it held before and that
/// element.
proof fn lemma_push_contains(s: Seq<HeaderView>, x: HeaderView, h: HeaderView)
    ensures
        s.push(x).contains(h) <==> s.contains(h) || h == x,
{
    if s.contains(h) {
        let i = choose|i: int| 0 <= i < s.len() && s[i] == h;
        assert(s.push(x)[i] == h);
    }
    if h == x {
        assert(s.push(x)[s.len() as int] == h);
    }
    if s.push(x).contains(h) {
        let i = choose|i: int| 0 <= i < s.push(x).len() && s.push(x)[i] == h;
        if i < s.len() {
            assert(s[i] == h);
        }
    }
}

/// What `not_overridden` keeps is what `base` holds under a name that `over`
/// does not use.
pub proof fn lemma_not_overridden_members(base: Seq<HeaderView>, over: Seq<HeaderView>)
    ensures
        forall|h: HeaderView| #[trigger]
            not_overridden(base, over).contains(h) <==> base.contains(h) && !has_name(over, h.name),
    decreases base.len(),
{
    if base.len() > 0 {
        let init = base.drop_last();
        let last = base.last();
        lemma_not_overridden_members(init, over);
        assert(base =~= init.push(last));
        assert forall|h: HeaderView| #[trigger]
            not_overridden(base, over).contains(h) <==> base.contains(h) && !has_name(
                over,
                h.name,
            ) by {
            let kept_init = not_overridden(init, over);
            assert(kept_init.contains(h) <==> init.contains(h) && !has_name(over, h.name));
            lemma_push_contains(init, last, h);
            if !has_name(over, last.name) {
                lemma_push_contains(kept_init, last, h);
            }
        }
    }
}

} // verus!
