//! The one interface text is written through.
//!
//! Results are written into a sink that the caller supplies. A sink may be
//! bounded: a write that does not fit is refused whole, because a partial write
//! would leave text that nobody asked for.

use crate::strings;
use crate::values::{FixedStr, Overflow};
use vstd::prelude::*;

verus! {

/// Whether `text` fits a sink with the given capacity in UTF-8 bytes.
pub open spec fn fits(limit: Option<nat>, text: Seq<char>) -> bool {
    match limit {
        Some(bytes) => strings::utf8_len(text) <= bytes,
        None => true,
    }
}

/// What a sink that holds `text` holds after `pieces` were written to it one
/// after the other, up to the first one that does not fit, and whether all of
/// them did.
pub open spec fn written(limit: Option<nat>, text: Seq<char>, pieces: Seq<Seq<char>>) -> (
    Seq<char>,
    bool,
)
    decreases pieces.len(),
{
    if pieces.len() == 0 {
        (text, true)
    } else if fits(limit, text + pieces[0]) {
        written(limit, text + pieces[0], pieces.drop_first())
    } else {
        (text, false)
    }
}

/// What a sink holds after `chars` were written to it one by one.
pub open spec fn written_chars(limit: Option<nat>, text: Seq<char>, chars: Seq<char>) -> (
    Seq<char>,
    bool,
) {
    written(limit, text, chars.map_values(|c: char| seq![c]))
}

/// Somewhere text can be appended.
pub trait TextSink {
    /// The text written so far.
    spec fn text(&self) -> Seq<char>;

    /// The capacity in UTF-8 bytes, or `None` where there is no bound.
    spec fn limit(&self) -> Option<nat>;

    /// Appends `s`. On overflow the sink is left exactly as it was.
    fn push_str(&mut self, s: &str) -> (r: Result<(), Overflow>)
        ensures
            final(self).limit() == old(self).limit(),
            r is Ok <==> fits(old(self).limit(), old(self).text() + s@),
            r is Ok ==> final(self).text() == old(self).text() + s@,
            r is Err ==> final(self).text() == old(self).text(),
    ;

    /// Appends one character.
    fn push(&mut self, c: char) -> (r: Result<(), Overflow>)
        ensures
            final(self).limit() == old(self).limit(),
            r is Ok <==> fits(old(self).limit(), old(self).text().push(c)),
            r is Ok ==> final(self).text() == old(self).text().push(c),
            r is Err ==> final(self).text() == old(self).text(),
    ;
}

/// For tests, tools, and anywhere the allocation does not matter.
impl TextSink for String {
    open spec fn text(&self) -> Seq<char> {
        self@
    }

    open spec fn limit(&self) -> Option<nat> {
        None
    }

    fn push_str(&mut self, s: &str) -> (r: Result<(), Overflow>) {
        self.append(s);
        Ok(())
    }

    fn push(&mut self, c: char) -> (r: Result<(), Overflow>) {
        strings::push_char(self, c);
        Ok(())
    }
}

/// The bounded sink.
impl<const N: usize> TextSink for FixedStr<N> {
    open spec fn text(&self) -> Seq<char> {
        self@
    }

    open spec fn limit(&self) -> Option<nat> {
        Some(N as nat)
    }

    fn push_str(&mut self, s: &str) -> (r: Result<(), Overflow>) {
        FixedStr::push_str(self, s)
    }

    fn push(&mut self, c: char) -> (r: Result<(), Overflow>) {
        FixedStr::push(self, c)
    }
}

/// Forwards to the sink behind the reference.
impl<T: TextSink> TextSink for &mut T {
    open spec fn text(&self) -> Seq<char> {
        (**self).text()
    }

    open spec fn limit(&self) -> Option<nat> {
        (**self).limit()
    }

    fn push_str(&mut self, s: &str) -> (r: Result<(), Overflow>) {
        (**self).push_str(s)
    }

    fn push(&mut self, c: char) -> (r: Result<(), Overflow>) {
        (**self).push(c)
    }
}

/// The texts of a list.
pub open spec fn pieces_of(pieces: Seq<String>) -> Seq<Seq<char>> {
    Seq::new(pieces.len(), |i: int| pieces[i]@)
}

/// Writes several texts one after the other, up to the first that does not fit.
pub fn write_pieces<S: TextSink>(sink: &mut S, pieces: &[String]) -> (r: Result<(), Overflow>)
    ensures
        (*final(sink)).limit() == (*old(sink)).limit(),
        ({
            let (text, all) = written(
                (*old(sink)).limit(),
                (*old(sink)).text(),
                pieces_of(pieces@),
            );
            (*final(sink)).text() == text && r is Ok == all
        }),
{
    let ghost views = pieces_of(pieces@);
    let mut i: usize = 0;
    assert(views.skip(0) =~= views);
    while i < pieces.len()
        invariant
            i <= pieces@.len(),
            views == pieces_of(pieces@),
            (*sink).limit() == (*old(sink)).limit(),
            written((*old(sink)).limit(), (*old(sink)).text(), views) == written(
                (*sink).limit(),
                (*sink).text(),
                views.skip(i as int),
            ),
        decreases pieces@.len() - i,
    {
        let ghost rest = views.skip(i as int);
        assert(rest[0] == pieces@[i as int]@);
        assert(rest.drop_first() =~= views.skip(i + 1));
        if sink.push_str(pieces[i].as_str()).is_err() {
            return Err(Overflow);
        }
        i = i + 1;
    }
    Ok(())
}

/// Writes characters one by one, up to the first that does not fit.
pub fn write_chars<S: TextSink>(sink: &mut S, chars: &[char]) -> (r: Result<(), Overflow>)
    ensures
        (*final(sink)).limit() == (*old(sink)).limit(),
        ({
            let (text, all) = written_chars((*old(sink)).limit(), (*old(sink)).text(), chars@);
            (*final(sink)).text() == text && r is Ok == all
        }),
{
    let ghost views = chars@.map_values(|c: char| seq![c]);
    let mut i: usize = 0;
    assert(views.skip(0) =~= views);
    while i < chars.len()
        invariant
            i <= chars@.len(),
            views == chars@.map_values(|c: char| seq![c]),
            (*sink).limit() == (*old(sink)).limit(),
            written((*old(sink)).limit(), (*old(sink)).text(), views) == written(
                (*sink).limit(),
                (*sink).text(),
                views.skip(i as int),
            ),
        decreases chars@.len() - i,
    {
        let ghost rest = views.skip(i as int);
        let ghost before = (*sink).text();
        assert(rest[0] == seq![chars@[i as int]]);
        assert(rest.drop_first() =~= views.skip(i + 1));
        assert(before + rest[0] =~= before.push(chars@[i as int]));
        if sink.push(chars[i]).is_err() {
            return Err(Overflow);
        }
        i = i + 1;
    }
    Ok(())
}

/// All of it is written exactly where all of it fits.
pub proof fn lemma_written(limit: Option<nat>, text: Seq<char>, pieces: Seq<Seq<char>>)
    ensures
        ({
            let (after, all) = written(limit, text, pieces);
            &&& all ==> after == text + pieces.flatten()
            &&& all <== fits(limit, text + pieces.flatten())
            &&& all && (pieces.len() > 0 || fits(limit, text)) ==> fits(
                limit,
                text + pieces.flatten(),
            )
        }),
    decreases pieces.len(),
{
    if pieces.len() == 0 {
        assert(text + pieces.flatten() =~= text);
    } else {
        let first = pieces[0];
        let rest = pieces.drop_first();
        assert(pieces.flatten() == first + rest.flatten());
        assert(text + pieces.flatten() =~= (text + first) + rest.flatten());
        strings::lemma_encode_concat(text + first, rest.flatten());
        lemma_written(limit, text + first, rest);
        if rest.len() == 0 {
            assert(rest.flatten() =~= Seq::<char>::empty());
            assert(text + first + rest.flatten() =~= text + first);
        }
    }
}

// ---------------------------------------------------------------------------
// What is written.

/// Where pieces of text are written one after the other, the sink takes them whole and in
/// order, up to the first with which it would hold more bytes than it can.
pub proof fn pieces_are_written_whole(limit: Option<nat>, text: Seq<char>, pieces: Seq<Seq<char>>)
    ensures
        exists|k: int| #[trigger] are_written(limit, text, pieces, k),
    decreases pieces.len(),
{
    if pieces.len() == 0 {
        assert(pieces.take(0) =~= pieces);
        assert(text + pieces.take(0).flatten() =~= text);
        assert(are_written(limit, text, pieces, 0));
    } else if fits(limit, text + pieces[0]) {
        let rest = pieces.drop_first();
        pieces_are_written_whole(limit, text + pieces[0], rest);
        let k = choose|k: int| #[trigger] are_written(limit, text + pieces[0], rest, k);
        lemma_joined(text, pieces, k + 1);
        if k < rest.len() {
            lemma_joined(text, pieces, k + 2);
        }
        assert(are_written(limit, text, pieces, k + 1));
    } else {
        assert(pieces.take(0) =~= Seq::empty());
        assert(text + pieces.take(0).flatten() =~= text);
        lemma_joined(text, pieces, 1);
        assert(pieces.drop_first().take(0).flatten() =~= Seq::<char>::empty());
        assert(text + pieces[0] + Seq::<char>::empty() =~= text + pieces[0]);
        assert(are_written(limit, text, pieces, 0));
    }
}

/// Whether the first `k` pieces are written, and the next one does not fit any more.
pub open spec fn are_written(
    limit: Option<nat>,
    text: Seq<char>,
    pieces: Seq<Seq<char>>,
    k: int,
) -> bool {
    &&& 0 <= k <= pieces.len()
    &&& written(limit, text, pieces) == (text + pieces.take(k).flatten(), k == pieces.len())
    &&& k < pieces.len() ==> match limit {
        Some(bytes) => vstd::utf8::encode_utf8(text + pieces.take(k + 1).flatten()).len() > bytes,
        None => false,
    }
}

proof fn lemma_joined(text: Seq<char>, pieces: Seq<Seq<char>>, k: int)
    requires
        1 <= k <= pieces.len(),
    ensures
        text + pieces.take(k).flatten() == text + pieces[0] + pieces.drop_first().take(
            k - 1,
        ).flatten(),
{
    assert(pieces.take(k).drop_first() =~= pieces.drop_first().take(k - 1));
    assert(pieces.take(k)[0] == pieces[0]);
    assert(text + pieces.take(k).flatten() =~= text + pieces[0] + pieces.drop_first().take(
        k - 1,
    ).flatten());
}

} // verus!
