use vstd::prelude::*;

use crate::text::{chars_eq_str, find_str, find_sub_from, lemma_find_sub_from, strip_ws,
    strip_ws_chars};
use crate::version::{spec_parse_version, Version, VersionError};

verus! {

/// The metadata record of one source file: the filename, the format version
/// (always present, defaulted when never seen), and the optional free-form
/// text fields.
#[derive(Debug)]
pub struct Metadata {
    pub filename: String,
    pub producer: Option<String>,
    pub creator: Option<String>,
    pub author: Option<String>,
    pub creator_tool: Option<String>,
    pub pdf_version: Version,
    pub title: Option<String>,
    pub xmp_toolkit: Option<String>,
    pub create_date: Option<String>,
    pub modify_date: Option<String>,
}

/// The mathematical content of a record.
#[verifier::ext_equal]
pub struct MetaView {
    pub filename: Seq<char>,
    pub producer: Option<Seq<char>>,
    pub creator: Option<Seq<char>>,
    pub author: Option<Seq<char>>,
    pub creator_tool: Option<Seq<char>>,
    pub pdf_version: Version,
    pub title: Option<Seq<char>>,
    pub xmp_toolkit: Option<Seq<char>>,
    pub create_date: Option<Seq<char>>,
    pub modify_date: Option<Seq<char>>,
}

impl View for Metadata {
    type V = MetaView;

    open spec fn view(&self) -> MetaView {
        MetaView {
            filename: self.filename@,
            producer: self.producer.deep_view(),
            creator: self.creator.deep_view(),
            author: self.author.deep_view(),
            creator_tool: self.creator_tool.deep_view(),
            pdf_version: self.pdf_version,
            title: self.title.deep_view(),
            xmp_toolkit: self.xmp_toolkit.deep_view(),
            create_date: self.create_date.deep_view(),
            modify_date: self.modify_date.deep_view(),
        }
    }
}

/// The nine recognized canonical key tokens.
#[derive(Clone, Copy, Debug, PartialEq, Eq, Structural)]
pub enum FieldKey {
    Producer,
    Creator,
    Author,
    CreatorTool,
    PdfVersion,
    Title,
    XmpToolkit,
    CreateDate,
    ModifyDate,
}

/// What one line asks of a record: nothing, or a value for one field.
pub enum LineAction {
    Skip,
    Put(FieldKey, Seq<char>),
}

/// The separator between the key segment and the value segment.
pub open spec fn sep_chars() -> Seq<char> {
    seq![' ', ':', ' ']
}

/// Classify one line: split at the first " : ", canonicalize the key
/// segment by removing all whitespace, and select the field it names.
/// A line without the separator, or with an unrecognized key, asks nothing.
pub open spec fn classify_line(l: Seq<char>) -> LineAction {
    let si = find_sub_from(l, sep_chars(), 0);
    if si < 0 {
        LineAction::Skip
    } else {
        let key = strip_ws(l.subrange(0, si));
        let value = l.subrange(si + 3, l.len() as int);
        if key == "Producer"@ {
            LineAction::Put(FieldKey::Producer, value)
        } else if key == "Creator"@ {
            LineAction::Put(FieldKey::Creator, value)
        } else if key == "Author"@ {
            LineAction::Put(FieldKey::Author, value)
        } else if key == "CreatorTool"@ {
            LineAction::Put(FieldKey::CreatorTool, value)
        } else if key == "PDFVersion"@ {
            LineAction::Put(FieldKey::PdfVersion, value)
        } else if key == "Title"@ {
            LineAction::Put(FieldKey::Title, value)
        } else if key == "XMPToolkit"@ {
            LineAction::Put(FieldKey::XmpToolkit, value)
        } else if key == "CreateDate"@ {
            LineAction::Put(FieldKey::CreateDate, value)
        } else if key == "ModifyDate"@ {
            LineAction::Put(FieldKey::ModifyDate, value)
        } else {
            LineAction::Skip
        }
    }
}

/// The record update one line performs. String-valued fields store the raw
/// value segment as-is, overwriting any earlier value; a version value that
/// does not parse is an error; every other line changes nothing.
pub open spec fn apply_line(m: MetaView, l: Seq<char>) -> Result<MetaView, VersionError> {
    match classify_line(l) {
        LineAction::Skip => Ok(m),
        LineAction::Put(f, v) => match f {
            FieldKey::Producer => Ok(MetaView { producer: Some(v), ..m }),
            FieldKey::Creator => Ok(MetaView { creator: Some(v), ..m }),
            FieldKey::Author => Ok(MetaView { author: Some(v), ..m }),
            FieldKey::CreatorTool => Ok(MetaView { creator_tool: Some(v), ..m }),
            FieldKey::PdfVersion => match spec_parse_version(v) {
                Ok(ver) => Ok(MetaView { pdf_version: ver, ..m }),
                Err(e) => Err(e),
            },
            FieldKey::Title => Ok(MetaView { title: Some(v), ..m }),
            FieldKey::XmpToolkit => Ok(MetaView { xmp_toolkit: Some(v), ..m }),
            FieldKey::CreateDate => Ok(MetaView { create_date: Some(v), ..m }),
            FieldKey::ModifyDate => Ok(MetaView { modify_date: Some(v), ..m }),
        },
    }
}

/// Apply one line of "Key : Value" text to an in-progress record.
pub fn update_metadata(meta: &mut Metadata, line: &str) -> (r: Result<(), VersionError>)
    ensures
        match apply_line(old(meta)@, line@) {
            Ok(mv) => r is Ok && final(meta)@ == mv,
            Err(e) => r == Err::<(), VersionError>(e) && final(meta)@ == old(meta)@,
        },
{
    proof {
        reveal_strlit(" : ");
        assert(" : "@ =~= sep_chars());
    }
    let llen = line.unicode_len();
    let sep = find_str(line, " : ", 0);
    let si: usize;
    match sep {
        None => {
            return Ok(());
        },
        Some(i) => {
            si = i;
        },
    }
    proof {
        lemma_find_sub_from(line@, sep_chars(), 0);
    }
    let key_part = line.substring_char(0, si);
    let value_part = line.substring_char(si + 3, llen);
    let key = strip_ws_chars(key_part);
    let ghost k = strip_ws(line@.subrange(0, si as int));
    let ghost v = line@.subrange(si + 3, llen as int);
    if chars_eq_str(&key, "Producer") {
        meta.producer = Some(value_part.to_owned());
        proof {
            assert(meta@ =~= (MetaView { producer: Some(v), ..old(meta)@ }));
        }
        Ok(())
    } else if chars_eq_str(&key, "Creator") {
        meta.creator = Some(value_part.to_owned());
        proof {
            assert(meta@ =~= (MetaView { creator: Some(v), ..old(meta)@ }));
        }
        Ok(())
    } else if chars_eq_str(&key, "Author") {
        meta.author = Some(value_part.to_owned());
        proof {
            assert(meta@ =~= (MetaView { author: Some(v), ..old(meta)@ }));
        }
        Ok(())
    } else if chars_eq_str(&key, "CreatorTool") {
        meta.creator_tool = Some(value_part.to_owned());
        proof {
            assert(meta@ =~= (MetaView { creator_tool: Some(v), ..old(meta)@ }));
        }
        Ok(())
    } else if chars_eq_str(&key, "PDFVersion") {
        match Version::parse(value_part) {
            Ok(ver) => {
                meta.pdf_version = ver;
                proof {
                    assert(meta@ =~= (MetaView { pdf_version: ver, ..old(meta)@ }));
                }
                Ok(())
            },
            Err(e) => Err(e),
        }
    } else if chars_eq_str(&key, "Title") {
        meta.title = Some(value_part.to_owned());
        proof {
            assert(meta@ =~= (MetaView { title: Some(v), ..old(meta)@ }));
        }
        Ok(())
    } else if chars_eq_str(&key, "XMPToolkit") {
        meta.xmp_toolkit = Some(value_part.to_owned());
        proof {
            assert(meta@ =~= (MetaView { xmp_toolkit: Some(v), ..old(meta)@ }));
        }
        Ok(())
    } else if chars_eq_str(&key, "CreateDate") {
        meta.create_date = Some(value_part.to_owned());
        proof {
            assert(meta@ =~= (MetaView { create_date: Some(v), ..old(meta)@ }));
        }
        Ok(())
    } else if chars_eq_str(&key, "ModifyDate") {
        meta.modify_date = Some(value_part.to_owned());
        proof {
            assert(meta@ =~= (MetaView { modify_date: Some(v), ..old(meta)@ }));
        }
        Ok(())
    } else {
        Ok(())
    }
}

/// A fresh record: the given filename, the default version, nothing else.
pub open spec fn init_view(filename: Seq<char>) -> MetaView {
    MetaView {
        filename,
        producer: None,
        creator: None,
        author: None,
        creator_tool: None,
        pdf_version: Version { primary: 1, secondary: 0 },
        title: None,
        xmp_toolkit: None,
        create_date: None,
        modify_date: None,
    }
}

impl Metadata {
    /// A record seeded with the filename and the default version.
    pub fn new(filename: &str) -> (r: Metadata)
        ensures
            r@ == init_view(filename@),
    {
        let r = Metadata {
            filename: filename.to_owned(),
            producer: None,
            creator: None,
            author: None,
            creator_tool: None,
            pdf_version: Version::default(),
            title: None,
            xmp_toolkit: None,
            create_date: None,
            modify_date: None,
        };
        proof {
            assert(r@ =~= init_view(filename@));
        }
        r
    }
}

/// The record a line sequence builds from `m`, folding left to right.
pub open spec fn fold_lines(m: MetaView, lines: Seq<Seq<char>>) -> Result<MetaView, VersionError>
    decreases lines.len(),
{
    if lines.len() == 0 {
        Ok(m)
    } else {
        match fold_lines(m, lines.drop_last()) {
            Ok(mm) => apply_line(mm, lines.last()),
            Err(e) => Err(e),
        }
    }
}

/// Once a prefix of the fold fails, the whole fold fails the same way.
proof fn lemma_fold_err_prefix(m: MetaView, lines: Seq<Seq<char>>, i: int)
    requires
        0 <= i <= lines.len(),
        fold_lines(m, lines.subrange(0, i)) is Err,
    ensures
        fold_lines(m, lines) == fold_lines(m, lines.subrange(0, i)),
    decreases lines.len() - i,
{
    if i == lines.len() {
        assert(lines.subrange(0, i) =~= lines);
    } else {
        assert(lines.subrange(0, i + 1).drop_last() =~= lines.subrange(0, i));
        lemma_fold_err_prefix(m, lines, i + 1);
    }
}

/// Build the completed record of one file: seed it with the filename and
/// the default version, then feed every line, in order, through the line
/// parser. A version value that does not parse is fatal for the file.
pub fn build_metadata(filename: &str, lines: &Vec<String>) -> (r: Result<Metadata, VersionError>)
    ensures
        match fold_lines(init_view(filename@), lines.deep_view()) {
            Ok(mv) => r is Ok && r->Ok_0@ == mv,
            Err(e) => r == Err::<Metadata, VersionError>(e),
        },
{
    let mut meta = Metadata::new(filename);
    let n = lines.len();
    let mut i: usize = 0;
    while i < n
        invariant
            n == lines@.len(),
            0 <= i <= n,
            fold_lines(init_view(filename@), lines.deep_view().subrange(0, i as int)) == Ok::<
                MetaView,
                VersionError,
            >(meta@),
        decreases n - i,
    {
        let line: &String = &lines[i];
        let res = update_metadata(&mut meta, line.as_str());
        proof {
            assert(lines.deep_view().subrange(0, i + 1).drop_last() =~= lines.deep_view().subrange(
                0,
                i as int,
            ));
            assert(lines.deep_view().subrange(0, i + 1).last() == lines@[i as int]@);
        }
        match res {
            Ok(_) => {},
            Err(e) => {
                proof {
                    assert(fold_lines(init_view(filename@), lines.deep_view().subrange(0, i + 1))
                        == Err::<MetaView, VersionError>(e));
                    lemma_fold_err_prefix(init_view(filename@), lines.deep_view(), i + 1);
                }
                return Err(e);
            },
        }
        i = i + 1;
    }
    proof {
        assert(lines.deep_view().subrange(0, n as int) =~= lines.deep_view());
    }
    Ok(meta)
}

/// Law: when the same string-valued key occurs twice, the later line wins;
/// stated here for the author field, whose two updates leave the record
/// with the second value and everything else untouched.
pub proof fn lemma_last_write_wins(
    m: MetaView,
    l1: Seq<char>,
    l2: Seq<char>,
    v1: Seq<char>,
    v2: Seq<char>,
)
    requires
        classify_line(l1) == LineAction::Put(FieldKey::Author, v1),
        classify_line(l2) == LineAction::Put(FieldKey::Author, v2),
    ensures
        fold_lines(m, seq![l1, l2]) == Ok::<MetaView, VersionError>(
            MetaView { author: Some(v2), ..m },
        ),
{
    let s = seq![l1, l2];
    let m1 = MetaView { author: Some(v1), ..m };
    assert(s.drop_last() =~= seq![l1]);
    assert(seq![l1].drop_last() =~= Seq::<Seq<char>>::empty());
    assert(fold_lines(m, Seq::<Seq<char>>::empty()) == Ok::<MetaView, VersionError>(m));
    assert(fold_lines(m, seq![l1]) == apply_line(m, l1));
    assert(apply_line(m, l1) == Ok::<MetaView, VersionError>(m1));
    assert(fold_lines(m, s) == apply_line(m1, l2));
    assert((MetaView { author: Some(v2), ..m1 }) =~= (MetaView { author: Some(v2), ..m }));
}

/// Law: a completed record always carries a version. The field is never
/// optional, and when no line of the sequence names the version key the
/// fold succeeds and leaves the seeded version (and filename) in place; in
/// particular a record built from such a sequence keeps the default (1, 0).
pub proof fn lemma_version_untouched(m: MetaView, lines: Seq<Seq<char>>)
    requires
        forall|i: int| 0 <= i < lines.len() ==> !(#[trigger] classify_line(lines[i]) matches
            LineAction::Put(FieldKey::PdfVersion, _)),
    ensures
        fold_lines(m, lines) is Ok,
        fold_lines(m, lines)->Ok_0.pdf_version == m.pdf_version,
        fold_lines(m, lines)->Ok_0.filename == m.filename,
    decreases lines.len(),
{
    if lines.len() > 0 {
        assert(classify_line(lines.last()) == classify_line(lines[lines.len() - 1]));
        lemma_version_untouched(m, lines.drop_last());
    }
}

} // verus!
