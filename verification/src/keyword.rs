//! The keywords that name the kinds of geometry.
use vstd::prelude::*;
use vstd::string::StringSliceAdditionalSpecFns;
use vstd::utf8::{is_ascii_chars, is_ascii_chars_encode_utf8};
use crate::error::WktError;

verus! {

/// The kinds of geometry.
#[derive(Clone, Copy, PartialEq, Eq, Debug, Structural)]
pub enum GeometryKind {
    /// One coordinate.
    Point,
    /// Coordinates in a row.
    LineString,
    /// Rings, each a line string.
    Polygon,
    /// Points.
    MultiPoint,
    /// Line strings.
    MultiLineString,
    /// Polygons.
    MultiPolygon,
    /// Geometries of any kind.
    GeometryCollection,
}

/// Whether every byte of `word` is an ASCII character.
pub open spec fn is_ascii(word: Seq<u8>) -> bool {
    forall|i: int| 0 <= i < word.len() ==> #[trigger] word[i] < 0x80
}

/// The byte `b`, in upper case where it is a lower-case ASCII letter.
pub open spec fn upper(b: u8) -> u8 {
    if 0x61 <= b <= 0x7a {
        (b - 0x20) as u8
    } else {
        b
    }
}

/// The bytes of `word`, each in upper case.
pub open spec fn uppercase(word: Seq<u8>) -> Seq<u8> {
    Seq::new(word.len(), |i: int| upper(word[i]))
}

impl GeometryKind {
    /// The keyword of the kind, in upper case.
    pub open spec fn text(self) -> &'static str {
        match self {
            GeometryKind::Point => "POINT",
            GeometryKind::LineString => "LINESTRING",
            GeometryKind::Polygon => "POLYGON",
            GeometryKind::MultiPoint => "MULTIPOINT",
            GeometryKind::MultiLineString => "MULTILINESTRING",
            GeometryKind::MultiPolygon => "MULTIPOLYGON",
            GeometryKind::GeometryCollection => "GEOMETRYCOLLECTION",
        }
    }

    /// The bytes of the keyword.
    pub open spec fn keyword(self) -> Seq<u8> {
        self.text().spec_bytes()
    }

    /// The keyword of the kind, in upper case.
    pub fn name(self) -> (name: &'static str)
        ensures
            name == self.text(),
    {
        match self {
            GeometryKind::Point => "POINT",
            GeometryKind::LineString => "LINESTRING",
            GeometryKind::Polygon => "POLYGON",
            GeometryKind::MultiPoint => "MULTIPOINT",
            GeometryKind::MultiLineString => "MULTILINESTRING",
            GeometryKind::MultiPolygon => "MULTIPOLYGON",
            GeometryKind::GeometryCollection => "GEOMETRYCOLLECTION",
        }
    }

    /// Whether `word` spells the keyword of the kind, in any mix of cases.
    pub fn spelled_by(self, word: &[u8]) -> (r: bool)
        ensures
            r == (uppercase(word@) == self.keyword()),
    {
        let keyword = self.name().as_bytes();
        if word.len() != keyword.len() {
            return false;
        }
        let mut i: usize = 0;
        while i < word.len()
            invariant
                i <= word@.len() == keyword@.len(),
                keyword@ == self.keyword(),
                forall|j: int| 0 <= j < i ==> upper(word@[j]) == keyword@[j],
            decreases word@.len() - i,
        {
            let b = word[i];
            let up = if 0x61 <= b && b <= 0x7a {
                b - 0x20
            } else {
                b
            };
            if up != keyword[i] {
                assert(uppercase(word@)[i as int] == up);
                return false;
            }
            i = i + 1;
        }
        assert(uppercase(word@) =~= keyword@);
        true
    }
}

/// The kind that `word` names, in any mix of cases, if it names one.
pub open spec fn kind_of(word: Seq<u8>) -> Option<GeometryKind> {
    if uppercase(word) == GeometryKind::Point.keyword() {
        Some(GeometryKind::Point)
    } else if uppercase(word) == GeometryKind::LineString.keyword() {
        Some(GeometryKind::LineString)
    } else if uppercase(word) == GeometryKind::Polygon.keyword() {
        Some(GeometryKind::Polygon)
    } else if uppercase(word) == GeometryKind::MultiPoint.keyword() {
        Some(GeometryKind::MultiPoint)
    } else if uppercase(word) == GeometryKind::MultiLineString.keyword() {
        Some(GeometryKind::MultiLineString)
    } else if uppercase(word) == GeometryKind::MultiPolygon.keyword() {
        Some(GeometryKind::MultiPolygon)
    } else if uppercase(word) == GeometryKind::GeometryCollection.keyword() {
        Some(GeometryKind::GeometryCollection)
    } else {
        None
    }
}

/// The grammar of a keyword: a word that is not all ASCII gives
/// `EncodingError`; an ASCII word that names no kind, whatever the case of its
/// letters, gives `UnknownGeometryType`.
pub open spec fn keyword_grammar(word: Seq<u8>) -> Result<GeometryKind, WktError> {
    if !is_ascii(word) {
        Err(WktError::EncodingError)
    } else {
        match kind_of(word) {
            Some(kind) => Ok(kind),
            None => Err(WktError::UnknownGeometryType),
        }
    }
}

/// Tells whether every byte of `word` is an ASCII character.
pub fn all_ascii(word: &[u8]) -> (r: bool)
    ensures
        r == is_ascii(word@),
{
    let mut i: usize = 0;
    while i < word.len()
        invariant
            i <= word@.len(),
            forall|j: int| 0 <= j < i ==> #[trigger] word@[j] < 0x80,
        decreases word@.len() - i,
    {
        if word[i] >= 0x80 {
            return false;
        }
        i = i + 1;
    }
    true
}

/// Finds the kind of geometry that the keyword `word` names.
pub fn lookup(word: &[u8]) -> (r: Result<GeometryKind, WktError>)
    ensures
        r == keyword_grammar(word@),
{
    if !all_ascii(word) {
        Err(WktError::EncodingError)
    } else if GeometryKind::Point.spelled_by(word) {
        Ok(GeometryKind::Point)
    } else if GeometryKind::LineString.spelled_by(word) {
        Ok(GeometryKind::LineString)
    } else if GeometryKind::Polygon.spelled_by(word) {
        Ok(GeometryKind::Polygon)
    } else if GeometryKind::MultiPoint.spelled_by(word) {
        Ok(GeometryKind::MultiPoint)
    } else if GeometryKind::MultiLineString.spelled_by(word) {
        Ok(GeometryKind::MultiLineString)
    } else if GeometryKind::MultiPolygon.spelled_by(word) {
        Ok(GeometryKind::MultiPolygon)
    } else if GeometryKind::GeometryCollection.spelled_by(word) {
        Ok(GeometryKind::GeometryCollection)
    } else {
        Err(WktError::UnknownGeometryType)
    }
}

/// Whether `word` is made of upper-case ASCII letters, at least one.
pub open spec fn is_capital_word(word: Seq<u8>) -> bool {
    word.len() > 0 && forall|i: int| 0 <= i < word.len() ==> 0x41 <= #[trigger] word[i] <= 0x5a
}

/// The bytes of a string of ASCII characters are its characters.
proof fn lemma_ascii_bytes(text: &str)
    requires
        is_ascii_chars(text@),
    ensures
        text.spec_bytes().len() == text@.len(),
        forall|i: int| 0 <= i < text@.len() ==> #[trigger] text.spec_bytes()[i] == text@[i] as u8,
{
    is_ascii_chars_encode_utf8(text@);
}

impl GeometryKind {
    /// Each keyword is made of upper-case letters, and names its kind and
    /// no other.
    pub proof fn lemma_keyword(self)
        ensures
            is_capital_word(self.keyword()),
            is_ascii(self.keyword()),
            uppercase(self.keyword()) == self.keyword(),
            keyword_grammar(self.keyword()) == Ok::<GeometryKind, WktError>(self),
    {
        reveal_strlit("POINT");
        reveal_strlit("LINESTRING");
        reveal_strlit("POLYGON");
        reveal_strlit("MULTIPOINT");
        reveal_strlit("MULTILINESTRING");
        reveal_strlit("MULTIPOLYGON");
        reveal_strlit("GEOMETRYCOLLECTION");
        lemma_ascii_bytes("POINT");
        lemma_ascii_bytes("LINESTRING");
        lemma_ascii_bytes("POLYGON");
        lemma_ascii_bytes("MULTIPOINT");
        lemma_ascii_bytes("MULTILINESTRING");
        lemma_ascii_bytes("MULTIPOLYGON");
        lemma_ascii_bytes("GEOMETRYCOLLECTION");
        let word = self.keyword();
        assert(uppercase(word) =~= word);
        assert(GeometryKind::LineString.keyword()[0] != GeometryKind::MultiPoint.keyword()[0]);
    }
}

/// A word names a kind only where its letters, in upper case, are the
/// keyword of the kind.
pub proof fn lemma_keyword_grammar(word: Seq<u8>)
    ensures
        keyword_grammar(word) matches Ok(kind) ==> uppercase(word) == kind.keyword(),
{
}

} // verus!
