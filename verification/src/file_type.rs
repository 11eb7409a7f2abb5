use vstd::prelude::*;

use vstd::string::StrSliceExecFns;

verus! {

/// The two file kinds the converter moves between, named by their file
/// extensions.
#[derive(Clone, Copy, Debug, PartialEq, Eq, Structural)]
pub enum FileType {
    Qbl,
    Xml,
}

/// The characters of the `qbl` file extension.
pub open spec fn qbl_extension() -> Seq<char> {
    seq!['q', 'b', 'l']
}

/// The characters of the `xml` file extension.
pub open spec fn xml_extension() -> Seq<char> {
    seq!['x', 'm', 'l']
}

impl FileType {
    /// The other kind: the target a conversion from this kind writes.
    pub fn other(self) -> (r: Self)
        ensures
            self == FileType::Qbl ==> r == FileType::Xml,
            self == FileType::Xml ==> r == FileType::Qbl,
    {
        match self {
            Self::Qbl => Self::Xml,
            Self::Xml => Self::Qbl,
        }
    }

    /// The file extension that names this kind.
    pub fn extension(self) -> (r: &'static str)
        ensures
            self == FileType::Qbl ==> r@ == qbl_extension(),
            self == FileType::Xml ==> r@ == xml_extension(),
    {
        match self {
            Self::Qbl => {
                let r = "qbl";
                proof {
                    reveal_strlit("qbl");
                    assert(r@ =~= qbl_extension());
                }
                r
            },
            Self::Xml => {
                let r = "xml";
                proof {
                    reveal_strlit("xml");
                    assert(r@ =~= xml_extension());
                }
                r
            },
        }
    }

    /// The kind a file extension names, if it names one.
    pub fn from_extension(extension: &str) -> (r: Option<FileType>)
        ensures
            r == Some(FileType::Qbl) <==> extension@ == qbl_extension(),
            r == Some(FileType::Xml) <==> extension@ == xml_extension(),
            r is None <==> extension@ != qbl_extension() && extension@ != xml_extension(),
    {
        if extension.unicode_len() == 3 {
            let c0 = extension.get_char(0);
            let c1 = extension.get_char(1);
            let c2 = extension.get_char(2);
            if c0 == 'q' && c1 == 'b' && c2 == 'l' {
                proof {
                    assert(extension@ =~= qbl_extension());
                }
                return Some(FileType::Qbl);
            }
            if c0 == 'x' && c1 == 'm' && c2 == 'l' {
                proof {
                    assert(extension@ =~= xml_extension());
                }
                return Some(FileType::Xml);
            }
        }
        proof {
            assert(qbl_extension()[0] == 'q' && qbl_extension()[1] == 'b' && qbl_extension()[2]
                == 'l');
            assert(xml_extension()[0] == 'x' && xml_extension()[1] == 'm' && xml_extension()[2]
                == 'l');
        }
        None
    }
}

} // verus!
