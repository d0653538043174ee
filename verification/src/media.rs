//! Metadata handling around the external extraction tool: the formats it
//! supports, the times it reports, and the per-file metadata record.
//!
//! The tool itself runs outside; what its output means is decided here.

use vstd::prelude::*;

verus! {

/// Modification time (seconds since the Unix epoch) and size in bytes of a
/// local file, as reported by the metadata extraction step.
pub struct CustomMetadata {
    mtime: i64,
    size: u64,
}

impl CustomMetadata {
    /// The modification time this metadata records.
    pub closed spec fn spec_mtime(&self) -> i64 {
        self.mtime
    }

    /// The file size in bytes this metadata records.
    pub closed spec fn spec_size(&self) -> u64 {
        self.size
    }

    pub fn new(mtime: i64, size: u64) -> (r: CustomMetadata)
        ensures
            r.spec_mtime() == mtime,
            r.spec_size() == size,
    {
        CustomMetadata { mtime, size }
    }

    pub fn get_mtime(&self) -> (r: i64)
        ensures
            r == self.spec_mtime(),
    {
        self.mtime
    }

    pub fn get_size(&self) -> (r: u64)
        ensures
            r == self.spec_size(),
    {
        self.size
    }
}

/// Index of the first character of `s` that occurs in `seps`, or `s.len()`.
pub open spec fn first_sep(s: Seq<char>, seps: Seq<char>) -> int
    decreases s.len(),
{
    if s.len() == 0 {
        0
    } else if seps.contains(s[0]) {
        0
    } else {
        1 + first_sep(s.drop_first(), seps)
    }
}

pub proof fn lemma_first_sep_bounds(s: Seq<char>, seps: Seq<char>)
    ensures
        0 <= first_sep(s, seps) <= s.len(),
        first_sep(s, seps) < s.len() ==> seps.contains(s[first_sep(s, seps)]),
        forall|j: int| 0 <= j < first_sep(s, seps) ==> !seps.contains(s[j]),
    decreases s.len(),
{
    if s.len() > 0 && !seps.contains(s[0]) {
        lemma_first_sep_bounds(s.drop_first(), seps);
        assert forall|j: int| 0 <= j < first_sep(s, seps) implies !seps.contains(s[j]) by {
            if j > 0 {
                assert(s.drop_first()[j - 1] == s[j]);
            }
        }
    }
}

/// `first_sep` is pinned down by the first separator position.
pub proof fn lemma_first_sep_at(s: Seq<char>, seps: Seq<char>, k: int)
    requires
        0 <= k <= s.len(),
        forall|j: int| 0 <= j < k ==> !seps.contains(s[j]),
        k < s.len() ==> seps.contains(s[k]),
    ensures
        first_sep(s, seps) == k,
    decreases k,
{
    if k > 0 {
        assert(!seps.contains(s[0]));
        assert forall|j: int| 0 <= j < k - 1 implies !seps.contains(s.drop_first()[j]) by {
            assert(s.drop_first()[j] == s[j + 1]);
        }
        lemma_first_sep_at(s.drop_first(), seps, k - 1);
    }
}

/// The non-empty tokens of `s`, split at the characters in `seps`.
pub open spec fn split_tokens_spec(s: Seq<char>, seps: Seq<char>) -> Seq<Seq<char>>
    decreases s.len(),
    via split_tokens_decreases
{
    let i = first_sep(s, seps);
    if s.len() == 0 {
        Seq::empty()
    } else if i == 0 {
        split_tokens_spec(s.drop_first(), seps)
    } else if i >= s.len() {
        seq![s]
    } else {
        seq![s.subrange(0, i)] + split_tokens_spec(s.subrange(i + 1, s.len() as int), seps)
    }
}

#[via_fn]
proof fn split_tokens_decreases(s: Seq<char>, seps: Seq<char>) {
    lemma_first_sep_bounds(s, seps);
}

/// Is `c` one of the characters in `seps`?
fn char_in(c: char, seps: &Vec<char>) -> (r: bool)
    ensures
        r == seps@.contains(c),
{
    let mut j: usize = 0;
    while j < seps.len()
        invariant
            0 <= j <= seps@.len(),
            forall|i: int| 0 <= i < j ==> seps@[i] != c,
        decreases seps@.len() - j,
    {
        if seps[j] == c {
            return true;
        }
        j = j + 1;
    }
    false
}

/// Position of the first separator in `s`, or its length if there is none.
fn first_sep_pos(s: &str, seps: &Vec<char>) -> (k: usize)
    ensures
        k == first_sep(s@, seps@),
{
    let n = s.unicode_len();
    let mut i: usize = 0;
    while i < n
        invariant
            0 <= i <= n,
            n == s@.len(),
            forall|j: int| 0 <= j < i ==> !seps@.contains(s@[j]),
        decreases n - i,
    {
        if char_in(s.get_char(i), seps) {
            proof {
                lemma_first_sep_at(s@, seps@, i as int);
            }
            return i;
        }
        i = i + 1;
    }
    proof {
        lemma_first_sep_at(s@, seps@, n as int);
    }
    n
}

/// Splits `s` into its non-empty tokens at the characters in `seps`.
pub fn split_tokens(s: &str, seps: &Vec<char>) -> (r: Vec<String>)
    ensures
        r.deep_view() == split_tokens_spec(s@, seps@),
    decreases s@.len(),
{
    let n = s.unicode_len();
    if n == 0 {
        let r: Vec<String> = Vec::new();
        proof {
            assert(r.deep_view() =~= split_tokens_spec(s@, seps@));
        }
        return r;
    }
    let i = first_sep_pos(s, seps);
    proof {
        lemma_first_sep_bounds(s@, seps@);
    }
    if i == 0 {
        let rest = s.substring_char(1, n);
        let r = split_tokens(rest, seps);
        proof {
            assert(rest@ =~= s@.drop_first());
        }
        r
    } else if i == n {
        let mut r: Vec<String> = Vec::new();
        r.push(String::from_str(s));
        proof {
            assert(r.deep_view() =~= split_tokens_spec(s@, seps@));
        }
        r
    } else {
        let head = s.substring_char(0, i);
        let rest = s.substring_char(i + 1, n);
        let mut r = split_tokens(rest, seps);
        r.insert(0, String::from_str(head));
        proof {
            assert(r.deep_view() =~= split_tokens_spec(s@, seps@));
        }
        r
    }
}

/// ASCII lowercase of one character; anything but 'A'..='Z' is unchanged.
pub open spec fn lower_char(c: char) -> char {
    if c == 'A' {
        'a'
    } else if c == 'B' {
        'b'
    } else if c == 'C' {
        'c'
    } else if c == 'D' {
        'd'
    } else if c == 'E' {
        'e'
    } else if c == 'F' {
        'f'
    } else if c == 'G' {
        'g'
    } else if c == 'H' {
        'h'
    } else if c == 'I' {
        'i'
    } else if c == 'J' {
        'j'
    } else if c == 'K' {
        'k'
    } else if c == 'L' {
        'l'
    } else if c == 'M' {
        'm'
    } else if c == 'N' {
        'n'
    } else if c == 'O' {
        'o'
    } else if c == 'P' {
        'p'
    } else if c == 'Q' {
        'q'
    } else if c == 'R' {
        'r'
    } else if c == 'S' {
        's'
    } else if c == 'T' {
        't'
    } else if c == 'U' {
        'u'
    } else if c == 'V' {
        'v'
    } else if c == 'W' {
        'w'
    } else if c == 'X' {
        'x'
    } else if c == 'Y' {
        'y'
    } else if c == 'Z' {
        'z'
    } else {
        c
    }
}

/// ASCII lowercase of a character run.
pub open spec fn lower_ascii(s: Seq<char>) -> Seq<char> {
    Seq::new(s.len(), |i: int| lower_char(s[i]))
}

/// The one-character string for the lowercase of an ASCII capital.
fn lower_char_str(c: char) -> (r: &'static str)
    requires
        'A' <= c && c <= 'Z',
    ensures
        r@ == seq![lower_char(c)],
{
    let r: &'static str = if c == 'A' {
        "a"
    } else if c == 'B' {
        "b"
    } else if c == 'C' {
        "c"
    } else if c == 'D' {
        "d"
    } else if c == 'E' {
        "e"
    } else if c == 'F' {
        "f"
    } else if c == 'G' {
        "g"
    } else if c == 'H' {
        "h"
    } else if c == 'I' {
        "i"
    } else if c == 'J' {
        "j"
    } else if c == 'K' {
        "k"
    } else if c == 'L' {
        "l"
    } else if c == 'M' {
        "m"
    } else if c == 'N' {
        "n"
    } else if c == 'O' {
        "o"
    } else if c == 'P' {
        "p"
    } else if c == 'Q' {
        "q"
    } else if c == 'R' {
        "r"
    } else if c == 'S' {
        "s"
    } else if c == 'T' {
        "t"
    } else if c == 'U' {
        "u"
    } else if c == 'V' {
        "v"
    } else if c == 'W' {
        "w"
    } else if c == 'X' {
        "x"
    } else if c == 'Y' {
        "y"
    } else {
        "z"
    };
    proof {
        reveal_strlit("a");
        reveal_strlit("b");
        reveal_strlit("c");
        reveal_strlit("d");
        reveal_strlit("e");
        reveal_strlit("f");
        reveal_strlit("g");
        reveal_strlit("h");
        reveal_strlit("i");
        reveal_strlit("j");
        reveal_strlit("k");
        reveal_strlit("l");
        reveal_strlit("m");
        reveal_strlit("n");
        reveal_strlit("o");
        reveal_strlit("p");
        reveal_strlit("q");
        reveal_strlit("r");
        reveal_strlit("s");
        reveal_strlit("t");
        reveal_strlit("u");
        reveal_strlit("v");
        reveal_strlit("w");
        reveal_strlit("x");
        reveal_strlit("y");
        reveal_strlit("z");
        assert(r@ =~= seq![lower_char(c)]);
    }
    r
}

/// ASCII-lowercases a string: capitals A-Z become a-z, all else stays.
pub fn lower_ascii_string(s: &str) -> (r: String)
    ensures
        r@ == lower_ascii(s@),
{
    let n = s.unicode_len();
    let mut r = String::new();
    let mut k: usize = 0;
    while k < n
        invariant
            0 <= k <= n,
            n == s@.len(),
            r@ =~= lower_ascii(s@).take(k as int),
        decreases n - k,
    {
        let c = s.get_char(k);
        if 'A' <= c && c <= 'Z' {
            r.append(lower_char_str(c));
        } else {
            let piece = s.substring_char(k, k + 1);
            proof {
                assert(piece@ =~= seq![s@[k as int]]);
            }
            r.append(piece);
        }
        k = k + 1;
        proof {
            assert(r@ =~= lower_ascii(s@).take(k as int));
        }
    }
    proof {
        assert(lower_ascii(s@).take(n as int) =~= lower_ascii(s@));
    }
    r
}

/// The separators at which the tool's format listing is split.
pub open spec fn listing_seps() -> Seq<char> {
    seq![' ', '\n', '\r', '\t']
}

/// The lowercased tokens of the tool's format listing.
pub open spec fn parse_formats(s: Seq<char>) -> Seq<Seq<char>> {
    Seq::new(
        split_tokens_spec(s, listing_seps()).len(),
        |i: int| lower_ascii(split_tokens_spec(s, listing_seps())[i]),
    )
}

/// Drives the external metadata extraction tool and interprets its output.
/// The tool's command name is configured once; the formats it supports are
/// registered from its own listing.
pub struct Extractor {
    exiftool: String,
    supported_formats: Vec<String>,
}

impl Extractor {
    /// The configured command for the extraction tool.
    pub closed spec fn spec_exiftool(&self) -> Seq<char> {
        self.exiftool@
    }

    /// The registered lowercase format names.
    pub closed spec fn spec_formats(&self) -> Seq<Seq<char>> {
        self.supported_formats.deep_view()
    }

    pub fn new(exiftool: String) -> (r: Extractor)
        ensures
            r.spec_exiftool() == exiftool@,
            r.spec_formats() == Seq::<Seq<char>>::empty(),
    {
        let r = Extractor { exiftool, supported_formats: Vec::new() };
        proof {
            assert(r.spec_formats() =~= Seq::<Seq<char>>::empty());
        }
        r
    }

    pub fn get_exiftool(&self) -> (r: &str)
        ensures
            r@ == self.spec_exiftool(),
    {
        self.exiftool.as_str()
    }

    /// Registers the formats named in the tool's own listing: every
    /// whitespace-separated token, lowercased, joins the supported set.
    pub fn get_supported_formats(&mut self, listing: &str)
        ensures
            final(self).spec_exiftool() == old(self).spec_exiftool(),
            final(self).spec_formats() == old(self).spec_formats() + parse_formats(listing@),
    {
        let seps: Vec<char> = vec![' ', '\n', '\r', '\t'];
        proof {
            assert(seps@ =~= listing_seps());
        }
        let tokens = split_tokens(listing, &seps);
        let ghost toks = tokens.deep_view();
        proof {
            assert(toks =~= split_tokens_spec(listing@, listing_seps()));
            assert(self.supported_formats.deep_view() =~= old(self).supported_formats.deep_view()
                + parse_formats(listing@).take(0));
        }
        let n = tokens.len();
        let mut k: usize = 0;
        while k < n
            invariant
                0 <= k <= n,
                n == tokens@.len(),
                toks == tokens.deep_view(),
                toks == split_tokens_spec(listing@, listing_seps()),
                self.exiftool@ == old(self).exiftool@,
                self.supported_formats.deep_view() =~= old(self).supported_formats.deep_view()
                    + parse_formats(listing@).take(k as int),
            decreases n - k,
        {
            let lowered = lower_ascii_string(tokens[k].as_str());
            let ghost before_push = self.supported_formats.deep_view();
            let ghost lowered_view = lowered@;
            self.supported_formats.push(lowered);
            k = k + 1;
            proof {
                assert(self.supported_formats.deep_view() =~= before_push.push(lowered_view));
                assert(tokens@[k as int - 1]@ == toks[k as int - 1]);
                assert(parse_formats(listing@).take(k as int) =~= parse_formats(listing@).take(
                    k as int - 1,
                ).push(lower_ascii(toks[k as int - 1])));
                assert(self.supported_formats.deep_view() =~= old(
                    self,
                ).supported_formats.deep_view() + parse_formats(listing@).take(k as int));
            }
        }
        proof {
            assert(parse_formats(listing@).take(n as int) =~= parse_formats(listing@));
        }
    }

    /// Is a file with this extension handled by the extraction tool? The
    /// comparison is case-insensitive: the extension is lowercased like the
    /// registered formats.
    pub fn is_supported_by_exif(&self, extension: &str) -> (r: bool)
        ensures
            r == self.spec_formats().contains(lower_ascii(extension@)),
    {
        let lowered = lower_ascii_string(extension);
        let n = self.supported_formats.len();
        let mut k: usize = 0;
        while k < n
            invariant
                0 <= k <= n,
                n == self.supported_formats@.len(),
                lowered@ == lower_ascii(extension@),
                forall|j: int| 0 <= j < k ==> self.spec_formats()[j] != lowered@,
            decreases n - k,
        {
            if crate::paths::str_eq(self.supported_formats[k].as_str(), lowered.as_str()) {
                proof {
                    assert(self.spec_formats()[k as int] == lowered@);
                }
                return true;
            }
            k = k + 1;
        }
        proof {
            assert forall|j: int|
                0 <= j < self.spec_formats().len() implies self.spec_formats()[j]
                != lower_ascii(extension@) by {}
            assert(!self.spec_formats().contains(lower_ascii(extension@)));
        }
        false
    }
}

/// The separators at which the tool's date-time output is split into lines.
pub open spec fn line_seps() -> Seq<char> {
    seq!['\n', '\r']
}

/// The first reported time that is not the tool's all-zero placeholder.
pub open spec fn first_usable_line(lines: Seq<Seq<char>>) -> Option<Seq<char>>
    decreases lines.len(),
{
    if lines.len() == 0 {
        None
    } else if lines[0] == "0000:00:00 00:00:00"@ {
        first_usable_line(lines.drop_first())
    } else {
        Some(lines[0])
    }
}

/// Relies on chrono's `NaiveDateTime::parse_from_str` with the
/// "%Y:%m:%d %H:%M:%S" format, and on `and_utc().timestamp()`: the parse
/// depends on the text alone, and a text it accepts denotes one UTC
/// timestamp.
pub uninterp spec fn exif_datetime_value(s: Seq<char>) -> Option<i64>;

/// Relies on chrono's `NaiveDateTime::parse_from_str` and
/// `and_utc().timestamp()` as above; the result is named, not spelled out.
#[verifier::external_body]
fn parse_exif_datetime(s: &str) -> (r: Option<i64>)
    ensures
        r == exif_datetime_value(s@),
{
    match chrono::NaiveDateTime::parse_from_str(s, "%Y:%m:%d %H:%M:%S") {
        Ok(t) => Some(t.and_utc().timestamp()),
        Err(_) => None,
    }
}

/// The Unix timestamp in the extraction tool's date-time output: its lines
/// are scanned for the first reported time that is not the all-zero
/// placeholder, and that time is read as a UTC timestamp. Nothing usable,
/// or a time the parser rejects, yields nothing.
pub fn timestamp_from_exif_listing(output: &str) -> (r: Option<i64>)
    ensures
        r == match first_usable_line(split_tokens_spec(output@, line_seps())) {
            Some(l) => exif_datetime_value(l),
            None => None,
        },
{
    let seps: Vec<char> = vec!['\n', '\r'];
    proof {
        assert(seps@ =~= line_seps());
    }
    let lines = split_tokens(output, &seps);
    let ghost lns = lines.deep_view();
    proof {
        assert(lns =~= split_tokens_spec(output@, line_seps()));
        assert(lns.skip(0) =~= lns);
    }
    let n = lines.len();
    let mut k: usize = 0;
    while k < n
        invariant
            0 <= k <= n,
            n == lns.len(),
            lns == lines.deep_view(),
            lns == split_tokens_spec(output@, line_seps()),
            lines@.len() == n,
            first_usable_line(lns) == first_usable_line(lns.skip(k as int)),
        decreases n - k,
    {
        proof {
            assert(lines@[k as int]@ == lns[k as int]);
            assert(lns.skip(k as int)[0] == lns[k as int]);
        }
        if !crate::paths::str_eq(lines[k].as_str(), "0000:00:00 00:00:00") {
            return parse_exif_datetime(lines[k].as_str());
        }
        proof {
            assert(lns.skip(k as int).drop_first() =~= lns.skip(k as int + 1));
        }
        k = k + 1;
    }
    proof {
        assert(lns.skip(n as int) =~= Seq::<Seq<char>>::empty());
    }
    None
}

} // verus!
