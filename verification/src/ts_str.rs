//! The formatted timestamp: a fixed buffer that holds exactly the text of
//! its layout.

use vstd::prelude::*;
use vstd::string::StringSliceAdditionalSpecFns;

use crate::ascii::{all_ascii, COLON, HYPHEN, PERIOD, PLUS, UPPER_T, UPPER_Z, ZERO};
use crate::layout::{FormatString, IsValidFormat, Layout, MAX_LEN};
use crate::render::{
    lemma_render_ascii, lemma_skeleton_bytes, skeleton, skeleton_byte, visible, Fields,
};

verus! {

/// Fixed-size inline string storage that exactly fits the formatted
/// timestamp.
///
/// The buffer always begins with a sign byte; the text handed out leaves a
/// `+` away.
#[derive(Clone, Copy, Debug)]
pub struct TimestampStr {
    pub(crate) buf: [u8; 36],
    pub(crate) len: usize,
    pub(crate) layout: FormatString,
}

impl View for TimestampStr {
    type V = Seq<u8>;

    /// The bytes of the buffer, sign byte first.
    open(crate) spec fn view(&self) -> Seq<u8> {
        self.buf@.take(self.len as int)
    }
}

/// The string of some ASCII bytes.
///
/// Calls `core::str::from_utf8`. Trusted: bytes below 128 are valid UTF-8,
/// so the call succeeds and hands back a string of exactly these bytes.
#[verifier::external_body]
fn ascii_as_str(bytes: &[u8]) -> (s: &str)
    requires
        all_ascii(bytes@),
    ensures
        s.spec_bytes() == bytes@,
{
    match core::str::from_utf8(bytes) {
        Ok(s) => s,
        Err(_) => "",
    }
}

/// Whether two runs of bytes are the same.
pub fn same_bytes(a: &[u8], b: &[u8]) -> (r: bool)
    ensures
        r == (a@ == b@),
{
    if a.len() != b.len() {
        return false;
    }
    let mut i: usize = 0;
    while i < a.len()
        invariant
            i <= a@.len(),
            a@.len() == b@.len(),
            forall|j: int| 0 <= j < i ==> a@[j] == b@[j],
        decreases a@.len() - i,
    {
        if a[i] != b[i] {
            return false;
        }
        i = i + 1;
    }
    assert(a@ =~= b@);
    true
}

impl TimestampStr {
    #[verifier::type_invariant]
    pub open(crate) spec fn well_formed(self) -> bool {
        &&& self.layout@.valid()
        &&& self.len == self.layout@.len()
        &&& self.len <= MAX_LEN
        &&& all_ascii(self@)
        &&& (self@[0] == PLUS || self@[0] == HYPHEN)
    }

    /// The layout of the text.
    pub open(crate) spec fn spec_layout(&self) -> Layout {
        self.layout@
    }

    /// What a reader sees: the bytes without a leading `+`.
    pub open spec fn visible(&self) -> Seq<u8> {
        visible(self@)
    }

    /// The layout of the text.
    pub fn layout(&self) -> (r: FormatString)
        ensures
            r@ == self.spec_layout(),
    {
        self.layout
    }

    /// The whole buffer, sign byte first: as many bytes as the layout says.
    pub fn as_raw_bytes(&self) -> (r: &[u8])
        ensures
            r@ == self@,
            r@.len() == self.spec_layout().len(),
    {
        proof {
            use_type_invariant(self);
        }
        let all: &[u8] = self.buf.as_slice();
        let r = &all[0..self.len];
        assert(r@ =~= self@);
        r
    }

    /// The text as bytes, without a leading `+`.
    pub fn as_bytes(&self) -> (r: &[u8])
        ensures
            r@ == self.visible(),
            all_ascii(r@),
    {
        proof {
            use_type_invariant(self);
        }
        let all: &[u8] = self.buf.as_slice();
        let start: usize = if self.buf[0] == PLUS {
            1
        } else {
            0
        };
        let r = &all[start..self.len];
        assert(r@ =~= self.visible());
        r
    }

    /// The text, without a leading `+`.
    pub fn as_str(&self) -> (r: &str)
        ensures
            r.spec_bytes() == self.visible(),
    {
        ascii_as_str(self.as_bytes())
    }

    /// Whether the text is `other`.
    pub fn eq_str(&self, other: &str) -> (r: bool)
        ensures
            r == (self.visible() == other.spec_bytes()),
    {
        same_bytes(self.as_bytes(), other.as_bytes())
    }

    /// The text as a string of its own.
    pub fn to_string(&self) -> (r: String)
        ensures
            vstd::utf8::encode_utf8(r@) == self.visible(),
    {
        self.as_str().to_owned()
    }

    /// The number of bytes of the text, a leading `+` not counted.
    pub fn len(&self) -> (r: usize)
        ensures
            r == self.visible().len(),
    {
        proof {
            use_type_invariant(self);
        }
        if self.buf[0] == PLUS {
            self.len - 1
        } else {
            self.len
        }
    }
}

impl PartialEq for TimestampStr {
    /// Two formatted timestamps are equal where they show the same text.
    fn eq(&self, other: &TimestampStr) -> (r: bool) {
        same_bytes(self.as_bytes(), other.as_bytes())
    }
}

impl vstd::std_specs::cmp::PartialEqSpecImpl for TimestampStr {
    open spec fn obeys_eq_spec() -> bool {
        true
    }

    open spec fn eq_spec(&self, other: &TimestampStr) -> bool {
        self.visible() == other.visible()
    }
}

/// The skeleton of a layout: its text with every digit `0`, both signs `+`,
/// and every separator in place, so that formatting has only digits and
/// signs left to write.
pub fn template(layout: FormatString) -> (r: TimestampStr)
    ensures
        r@ == skeleton(layout@),
        r.spec_layout() == layout@,
{
    let len = layout.length();
    let punctuated = layout.is_punctuated();
    let precision = layout.precision();
    let step: usize = if punctuated {
        1
    } else {
        0
    };
    let mut buf: [u8; 36] = [ZERO; 36];
    buf[0] = PLUS;
    if punctuated {
        buf[5] = HYPHEN;
        buf[8] = HYPHEN;
        buf[14] = COLON;
        buf[17] = COLON;
    }
    buf[9 + 2 * step] = UPPER_T;
    let mut zone: usize = 16 + 4 * step;
    if precision > 0 {
        buf[zone] = PERIOD;
        zone = zone + 1 + precision as usize;
    }
    if layout.has_offset() {
        buf[zone] = PLUS;
        buf[zone + 3] = COLON;
    } else {
        buf[zone] = UPPER_Z;
    }
    proof {
        let want = skeleton(layout@);
        let got = buf@.take(len as int);
        assert forall|i: int| 0 <= i < len implies got[i] == skeleton_byte(layout@, i) by {
            assert(got[i] == buf@[i]);
        }
        lemma_skeleton_bytes(layout@);
        assert(got =~= want);
        lemma_render_ascii(Fields::zero(), layout@);
    }
    TimestampStr { buf, len, layout }
}

} // verus!
