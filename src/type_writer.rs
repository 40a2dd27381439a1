use vstd::prelude::*;
use vstd::string::{StrSliceExecFns, StringExecFns};

verus! {

/// What `str::trim` leaves of `s`.
pub uninterp spec fn trim_of(s: Seq<char>) -> Seq<char>;

/// Relies on `str::trim`: the text without its leading and trailing
/// whitespace, which depends on the text alone.
#[verifier::external_body]
fn trimmed(s: &str) -> (r: String)
    ensures
        r@ == trim_of(s@),
{
    s.trim().to_string()
}

/// The first index at or after `from` where `s` holds a space.
pub open spec fn next_space(s: Seq<char>, from: int) -> Option<int>
    decreases s.len() - from,
{
    if from < 0 || from >= s.len() {
        None
    } else if s[from] == ' ' {
        Some(from)
    } else {
        next_space(s, from + 1)
    }
}

/// The first `shown` characters of `s`, padded with spaces up to the next
/// space of `s` unless they already end in one, so that a word being
/// typed out keeps its place on the line.
pub open spec fn wrapped_prefix(s: Seq<char>, shown: int) -> Seq<char> {
    let slice = s.take(shown);
    let padding = match next_space(s, shown) {
        Some(i) => i - shown,
        None => 0,
    };
    if shown > 0 && s[shown - 1] == ' ' {
        slice
    } else {
        slice + Seq::new(padding as nat, |_i: int| ' ')
    }
}

/// Dialogue text revealed one character per tick of the typing timer.
#[derive(Debug)]
pub struct TypeWriter {
    pub is_finished: bool,
    pub string: String,
    /// How many characters are revealed.
    pub last_len: usize,
}

impl TypeWriter {
    /// No more characters are revealed than the text has.
    pub open spec fn wf(&self) -> bool {
        self.last_len <= self.string@.len()
    }

    /// A writer about to type out `string`, trimmed, from its first character.
    pub fn new(string: String) -> (r: TypeWriter)
        ensures
            r.string@ == trim_of(string@),
            r.last_len == 0,
            !r.is_finished,
            r.wf(),
    {
        TypeWriter { string: trimmed(string.as_str()), last_len: 0, is_finished: false }
    }

    /// One tick of the typing timer: reveals one more character; once the
    /// whole text shows, the writer is finished.
    pub fn increment(&mut self)
        ensures
            final(self).string == old(self).string,
            final(self).last_len == if old(self).last_len < old(self).string@.len() {
                old(self).last_len + 1
            } else {
                old(self).string@.len() as int
            },
            final(self).is_finished == (old(self).is_finished || old(self).last_len + 1
                >= old(self).string@.len()),
            final(self).wf(),
    {
        let n = self.string.as_str().unicode_len();
        if self.last_len < n {
            self.last_len = self.last_len + 1;
        }
        if self.last_len >= n {
            self.is_finished = true;
            self.last_len = n;
        }
    }

    /// Reveals the whole text at once.
    pub fn finish(&mut self)
        ensures
            final(self).string == old(self).string,
            final(self).is_finished,
            final(self).last_len == old(self).string@.len(),
            final(self).wf(),
    {
        self.is_finished = true;
        self.last_len = self.string.as_str().unicode_len();
    }

    /// The revealed part of the text.
    pub fn slice(&self) -> (r: &str)
        requires
            self.wf(),
        ensures
            r@ == self.string@.take(self.last_len as int),
    {
        self.string.as_str().substring_char(0, self.last_len)
    }

    /// The revealed part of the text, padded with spaces up to the end of
    /// the word being typed, so that the word does not jump to the next
    /// line as it grows.
    pub fn slice_with_line_wrap(&self) -> (r: String)
        requires
            self.wf(),
        ensures
            r@ == wrapped_prefix(self.string@, self.last_len as int),
    {
        let s = self.string.as_str();
        let n = s.unicode_len();
        let shown = self.last_len;
        let mut slice = s.substring_char(0, shown).to_owned();
        if shown > 0 && s.get_char(shown - 1) == ' ' {
            return slice;
        }
        let mut i = shown;
        while i < n
            invariant
                shown <= i <= n,
                n == s@.len(),
                next_space(s@, shown as int) == next_space(s@, i as int),
            ensures
                shown <= i <= n,
                next_space(s@, shown as int) == next_space(s@, i as int),
                i < n ==> s@[i as int] == ' ',
            decreases n - i,
        {
            if s.get_char(i) == ' ' {
                break;
            }
            i = i + 1;
        }
        let padding = if i < n {
            i - shown
        } else {
            0
        };
        proof {
            assert(padding == match next_space(s@, shown as int) {
                Some(j) => j - shown,
                None => 0,
            });
        }
        let ghost base = slice@;
        let mut k: usize = 0;
        while k < padding
            invariant
                k <= padding,
                base == s@.take(shown as int),
                slice@ == base + Seq::new(k as nat, |_i: int| ' '),
            decreases padding - k,
        {
            slice.append(" ");
            proof {
                reveal_strlit(" ");
                assert(" "@ =~= seq![' ']);
                assert(slice@ =~= base + Seq::new((k + 1) as nat, |_i: int| ' '));
            }
            k = k + 1;
        }
        slice
    }
}

} // verus!
