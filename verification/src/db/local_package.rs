//! A package from the local database: its description record, the files it
//! installed, and validation of those files against the on-disk state.

use vstd::prelude::*;
use vstd::string::StrSliceExecFns;
use crate::alpm_desc::de;
use crate::alpm_desc::de::{spec_from_str, SpecDeError};
use crate::alpm_desc::record::{
    Field, Record, Scalar, ScalarShape, ScalarV, SchemaField, SchemaFieldV, Shape, Value, ValueV,
    FieldV, as_text, as_opt_text, as_list, as_unsigned, get_text, get_opt_text, get_list,
    get_unsigned, strings_view, clone_strings,
};
use crate::alpm_desc::ser::nl;
use crate::error::{Error, ErrorKind};
use crate::unpack::{gzip_decode, gunzip_ok, gunzip_of, mtree_entry_list, mtree_entries_of,
    view_mtree_entries};
use crate::mtree_screen::{mtree_input_tame, spec_mtree_tame};
use crate::util::str_eq;

verus! {

/// The kind of filesystem object a manifest entry expects.
#[derive(Debug, Clone, Copy, PartialEq, Eq, Structural)]
pub enum FileType {
    File,
    Directory,
    SymbolicLink,
    Other,
}

/// The file type a wire code stands for.
pub open spec fn spec_filetype_from_code(c: u8) -> FileType {
    if c == 0 {
        FileType::File
    } else if c == 1 {
        FileType::Directory
    } else if c == 2 {
        FileType::SymbolicLink
    } else {
        FileType::Other
    }
}

impl FileType {
    /// Decode the wire code of a manifest file type.
    pub fn from_code(c: u8) -> (r: FileType)
        ensures
            r == spec_filetype_from_code(c),
    {
        if c == 0 {
            FileType::File
        } else if c == 1 {
            FileType::Directory
        } else if c == 2 {
            FileType::SymbolicLink
        } else {
            FileType::Other
        }
    }
}

/// One entry of the filesystem manifest: a path with the type and size it
/// is expected to have.
#[derive(Debug, Clone, PartialEq)]
pub struct MtreeEntry {
    pub path: String,
    pub file_type: Option<FileType>,
    pub size: Option<u64>,
}

/// The mathematical value of one manifest entry.
pub struct MtreeEntryV {
    pub path: Seq<char>,
    pub file_type: Option<FileType>,
    pub size: Option<u64>,
}

impl View for MtreeEntry {
    type V = MtreeEntryV;

    open spec fn view(&self) -> MtreeEntryV {
        MtreeEntryV { path: self.path@, file_type: self.file_type, size: self.size }
    }
}

/// Different possible validation methods.  `Unchecked` is the wire word
/// `none`: the package carries nothing to validate against.
#[derive(Debug, Clone, Copy, PartialEq, Eq, Structural)]
pub enum Validation {
    Unchecked,
    Md5,
    Sha256,
    Pgp,
}

/// The reason that a package was installed by the package manager.
#[derive(Debug, Clone, Copy, PartialEq, Eq, Structural)]
pub enum InstallReason {
    /// This package was explicitly installed.
    Explicit,
    /// This package was installed because another package required it.
    Depend,
}

/// Possible problems with an installed package's files.
#[derive(Debug, Clone, PartialEq)]
pub enum ValidationError {
    /// A file in the package is not present on disk.
    FileNotFound(String),
    /// A file is of the wrong type.
    WrongType { filename: String, expected: FileType, actual: FileType },
    /// A file is of the wrong size.
    WrongSize { filename: String, expected: u64, actual: u64 },
}

/// The mathematical value of a validation problem.
pub enum ValidationErrorV {
    FileNotFound(Seq<char>),
    WrongType { filename: Seq<char>, expected: FileType, actual: FileType },
    WrongSize { filename: Seq<char>, expected: u64, actual: u64 },
}

impl View for ValidationError {
    type V = ValidationErrorV;

    open spec fn view(&self) -> ValidationErrorV {
        match self {
            ValidationError::FileNotFound(p) => ValidationErrorV::FileNotFound(p@),
            ValidationError::WrongType { filename, expected, actual } => {
                ValidationErrorV::WrongType {
                    filename: filename@,
                    expected: *expected,
                    actual: *actual,
                }
            },
            ValidationError::WrongSize { filename, expected, actual } => {
                ValidationErrorV::WrongSize {
                    filename: filename@,
                    expected: *expected,
                    actual: *actual,
                }
            },
        }
    }
}

impl ValidationError {
    /// Constructor for the `FileNotFound` variant.
    pub fn file_not_found(s: String) -> (r: ValidationError)
        ensures
            r@ == ValidationErrorV::FileNotFound(s@),
    {
        ValidationError::FileNotFound(s)
    }

    /// Constructor for the `WrongType` variant.
    pub fn wrong_type(filename: String, expected: FileType, actual: FileType) -> (r:
        ValidationError)
        ensures
            r@ == (ValidationErrorV::WrongType { filename: filename@, expected, actual }),
    {
        ValidationError::WrongType { filename, expected, actual }
    }

    /// Constructor for the `WrongSize` variant.
    pub fn wrong_size(filename: String, expected: u64, actual: u64) -> (r: ValidationError)
        ensures
            r@ == (ValidationErrorV::WrongSize { filename: filename@, expected, actual }),
    {
        ValidationError::WrongSize { filename, expected, actual }
    }
}

/// What `symlink_metadata` told the caller about one path.
#[derive(Debug, Clone, Copy, PartialEq, Eq, Structural)]
pub struct FileStat {
    /// What kind of object sits there.
    pub file_type: FileType,
    /// Its length in bytes.
    pub size: u64,
}

/// The description record of a locally installed package.
#[derive(Debug, Clone, PartialEq)]
pub struct LocalPackageDescription {
    pub name: String,
    pub version: String,
    pub base: Option<String>,
    pub description: String,
    pub groups: Vec<String>,
    pub url: Option<String>,
    pub license: Vec<String>,
    pub arch: String,
    pub build_date: String,
    pub install_date: String,
    pub packager: String,
    pub reason: Option<InstallReason>,
    pub validation: Vec<Validation>,
    pub size: u64,
    pub replaces: Vec<String>,
    pub depends: Vec<String>,
    pub optional_depends: Vec<String>,
    pub make_depends: Vec<String>,
    pub check_depends: Vec<String>,
    pub conflicts: Vec<String>,
    pub provides: Vec<String>,
}

/// The mathematical value of a local description.
pub struct LocalDescV {
    pub name: Seq<char>,
    pub version: Seq<char>,
    pub base: Option<Seq<char>>,
    pub description: Seq<char>,
    pub groups: Seq<Seq<char>>,
    pub url: Option<Seq<char>>,
    pub license: Seq<Seq<char>>,
    pub arch: Seq<char>,
    pub build_date: Seq<char>,
    pub install_date: Seq<char>,
    pub packager: Seq<char>,
    pub reason: Option<InstallReason>,
    pub validation: Seq<Validation>,
    pub size: u64,
    pub replaces: Seq<Seq<char>>,
    pub depends: Seq<Seq<char>>,
    pub optional_depends: Seq<Seq<char>>,
    pub make_depends: Seq<Seq<char>>,
    pub check_depends: Seq<Seq<char>>,
    pub conflicts: Seq<Seq<char>>,
    pub provides: Seq<Seq<char>>,
}

/// The strings a string vector stands for.
pub open spec fn view_strings(v: Seq<String>) -> Seq<Seq<char>> {
    v.map_values(|s: String| s@)
}

impl View for LocalPackageDescription {
    type V = LocalDescV;

    open spec fn view(&self) -> LocalDescV {
        LocalDescV {
            name: self.name@,
            version: self.version@,
            base: match self.base {
                Some(ref s) => Some(s@),
                None => None,
            },
            description: self.description@,
            groups: view_strings(self.groups@),
            url: match self.url {
                Some(ref s) => Some(s@),
                None => None,
            },
            license: view_strings(self.license@),
            arch: self.arch@,
            build_date: self.build_date@,
            install_date: self.install_date@,
            packager: self.packager@,
            reason: self.reason,
            validation: self.validation@,
            size: self.size,
            replaces: view_strings(self.replaces@),
            depends: view_strings(self.depends@),
            optional_depends: view_strings(self.optional_depends@),
            make_depends: view_strings(self.make_depends@),
            check_depends: view_strings(self.check_depends@),
            conflicts: view_strings(self.conflicts@),
            provides: view_strings(self.provides@),
        }
    }
}


/// The reason wire values: `0` is explicit, `1` is a dependency.
pub open spec fn reason_of(o: Option<Seq<char>>) -> Result<Option<InstallReason>, ()> {
    match o {
        None => Ok(None),
        Some(t) => if t == seq!['0'] {
            Ok(Some(InstallReason::Explicit))
        } else if t == seq!['1'] {
            Ok(Some(InstallReason::Depend))
        } else {
            Err(())
        },
    }
}

/// The validation wire words.
pub open spec fn validation_of_one(t: Seq<char>) -> Result<Validation, ()> {
    if t == seq!['n', 'o', 'n', 'e'] {
        Ok(Validation::Unchecked)
    } else if t == seq!['m', 'd', '5'] {
        Ok(Validation::Md5)
    } else if t == seq!['s', 'h', 'a', '2', '5', '6'] {
        Ok(Validation::Sha256)
    } else if t == seq!['p', 'g', 'p'] {
        Ok(Validation::Pgp)
    } else {
        Err(())
    }
}

/// All validation words of a list, or the first failure.
pub open spec fn validations_of(ts: Seq<Seq<char>>) -> Result<Seq<Validation>, ()>
    decreases ts.len(),
{
    if ts.len() == 0 {
        Ok(Seq::empty())
    } else {
        match validation_of_one(ts[0]) {
            Err(_) => Err(()),
            Ok(v) => match validations_of(ts.drop_first()) {
                Err(_) => Err(()),
                Ok(t) => Ok(seq![v] + t),
            },
        }
    }
}

/// Exec decoding of the install reason.
fn get_reason(v: &Value) -> (r: Result<Option<InstallReason>, ()>)
    ensures
        match as_opt_text(v@) {
            Ok(o) => match reason_of(o) {
                Ok(re) => r is Ok && r->Ok_0 == re,
                Err(_) => r is Err,
            },
            Err(_) => r is Err,
        },
{
    proof {
        reveal_strlit("0");
        reveal_strlit("1");
        assert("0"@ =~= seq!['0']);
        assert("1"@ =~= seq!['1']);
    }
    match get_opt_text(v) {
        Err(_) => Err(()),
        Ok(o) => match o {
            None => Ok(None),
            Some(t) => {
                if str_eq(t.as_str(), "0") {
                    Ok(Some(InstallReason::Explicit))
                } else if str_eq(t.as_str(), "1") {
                    Ok(Some(InstallReason::Depend))
                } else {
                    Err(())
                }
            },
        },
    }
}

/// Exec decoding of the validation words.
fn get_validations(v: &Value) -> (r: Result<Vec<Validation>, ()>)
    ensures
        match as_list(v@) {
            Ok(es) => match validations_of(es) {
                Ok(vs) => r is Ok && r->Ok_0@ == vs,
                Err(_) => r is Err,
            },
            Err(_) => r is Err,
        },
{
    proof {
        reveal_strlit("none");
        reveal_strlit("md5");
        reveal_strlit("sha256");
        reveal_strlit("pgp");
        assert("none"@ =~= seq!['n', 'o', 'n', 'e']);
        assert("md5"@ =~= seq!['m', 'd', '5']);
        assert("sha256"@ =~= seq!['s', 'h', 'a', '2', '5', '6']);
        assert("pgp"@ =~= seq!['p', 'g', 'p']);
    }
    let es = match get_list(v) {
        Ok(es) => es,
        Err(_) => {
            return Err(());
        },
    };
    let ghost esv = strings_view(es@);
    let mut out: Vec<Validation> = Vec::new();
    let mut k: usize = 0;
    proof {
        assert(esv.skip(0) =~= esv);
    }
    while k < es.len()
        invariant
            k <= es@.len(),
            esv == strings_view(es@),
            as_list(v@) is Ok,
            esv == (as_list(v@))->Ok_0,
            validations_of(esv) == (match validations_of(esv.skip(k as int)) {
                Ok(t) => Ok::<Seq<Validation>, ()>(out@ + t),
                Err(_) => Err::<Seq<Validation>, ()>(()),
            }),
        decreases es@.len() - k,
    {
        let ghost tail = esv.skip(k as int);
        proof {
            reveal_strlit("none");
            reveal_strlit("md5");
            reveal_strlit("sha256");
            reveal_strlit("pgp");
            assert("none"@ =~= seq!['n', 'o', 'n', 'e']);
            assert("md5"@ =~= seq!['m', 'd', '5']);
            assert("sha256"@ =~= seq!['s', 'h', 'a', '2', '5', '6']);
            assert("pgp"@ =~= seq!['p', 'g', 'p']);
            assert(tail[0] == es@[k as int]@);
            assert(tail.drop_first() =~= esv.skip(k + 1));
        }
        let t = &es[k];
        let w: Validation;
        if str_eq(t.as_str(), "none") {
            w = Validation::Unchecked;
        } else if str_eq(t.as_str(), "md5") {
            w = Validation::Md5;
        } else if str_eq(t.as_str(), "sha256") {
            w = Validation::Sha256;
        } else if str_eq(t.as_str(), "pgp") {
            w = Validation::Pgp;
        } else {
            proof {
                assert(validation_of_one(tail[0]) is Err);
                assert(validations_of(tail) is Err);
            }
            return Err(());
        }
        proof {
            assert(validation_of_one(tail[0]) == Ok::<Validation, ()>(w));
            if validations_of(esv.skip(k + 1)) is Ok {
                let t2 = validations_of(esv.skip(k + 1))->Ok_0;
                assert(out@ + (seq![w] + t2) =~= (out@ + seq![w]) + t2);
                assert(out@.push(w) =~= out@ + seq![w]);
            } else {
                assert(validations_of(tail) is Err);
            }
        }
        out.push(w);
        k += 1;
    }
    proof {
        assert(esv.skip(es@.len() as int) =~= Seq::<Seq<char>>::empty());
        assert(out@ + Seq::<Validation>::empty() =~= out@);
    }
    Ok(out)
}

/// The expected fields of a local `desc` record, in emission order.
pub open spec fn local_schema() -> Seq<SchemaFieldV> {
    seq![
        SchemaFieldV { name: seq!['n', 'a', 'm', 'e'], shape: Shape::Scalar(ScalarShape::Text) },
        SchemaFieldV { name: seq!['v', 'e', 'r', 's', 'i', 'o', 'n'], shape: Shape::Scalar(ScalarShape::Text) },
        SchemaFieldV { name: seq!['b', 'a', 's', 'e'], shape: Shape::Optional(ScalarShape::Text) },
        SchemaFieldV { name: seq!['d', 'e', 's', 'c'], shape: Shape::Scalar(ScalarShape::Text) },
        SchemaFieldV { name: seq!['g', 'r', 'o', 'u', 'p', 's'], shape: Shape::List },
        SchemaFieldV { name: seq!['u', 'r', 'l'], shape: Shape::Optional(ScalarShape::Text) },
        SchemaFieldV { name: seq!['l', 'i', 'c', 'e', 'n', 's', 'e'], shape: Shape::List },
        SchemaFieldV { name: seq!['a', 'r', 'c', 'h'], shape: Shape::Scalar(ScalarShape::Text) },
        SchemaFieldV { name: seq!['b', 'u', 'i', 'l', 'd', 'd', 'a', 't', 'e'], shape: Shape::Scalar(ScalarShape::Text) },
        SchemaFieldV { name: seq!['i', 'n', 's', 't', 'a', 'l', 'l', 'd', 'a', 't', 'e'], shape: Shape::Scalar(ScalarShape::Text) },
        SchemaFieldV { name: seq!['p', 'a', 'c', 'k', 'a', 'g', 'e', 'r'], shape: Shape::Scalar(ScalarShape::Text) },
        SchemaFieldV { name: seq!['r', 'e', 'a', 's', 'o', 'n'], shape: Shape::Optional(ScalarShape::Text) },
        SchemaFieldV { name: seq!['v', 'a', 'l', 'i', 'd', 'a', 't', 'i', 'o', 'n'], shape: Shape::List },
        SchemaFieldV { name: seq!['s', 'i', 'z', 'e'], shape: Shape::Scalar(ScalarShape::Unsigned) },
        SchemaFieldV { name: seq!['r', 'e', 'p', 'l', 'a', 'c', 'e', 's'], shape: Shape::List },
        SchemaFieldV { name: seq!['d', 'e', 'p', 'e', 'n', 'd', 's'], shape: Shape::List },
        SchemaFieldV { name: seq!['o', 'p', 't', 'd', 'e', 'p', 'e', 'n', 'd', 's'], shape: Shape::List },
        SchemaFieldV { name: seq!['m', 'a', 'k', 'e', 'd', 'e', 'p', 'e', 'n', 'd', 's'], shape: Shape::List },
        SchemaFieldV { name: seq!['c', 'h', 'e', 'c', 'k', 'd', 'e', 'p', 'e', 'n', 'd', 's'], shape: Shape::List },
        SchemaFieldV { name: seq!['c', 'o', 'n', 'f', 'l', 'i', 'c', 't', 's'], shape: Shape::List },
        SchemaFieldV { name: seq!['p', 'r', 'o', 'v', 'i', 'd', 'e', 's'], shape: Shape::List }
    ]
}

/// Build the local `desc` schema.
pub fn local_schema_fields() -> (v: Vec<SchemaField>)
    ensures
        de::view_schema(v@) == local_schema(),
{
    proof {
        reveal_strlit("name");
        reveal_strlit("version");
        reveal_strlit("base");
        reveal_strlit("desc");
        reveal_strlit("groups");
        reveal_strlit("url");
        reveal_strlit("license");
        reveal_strlit("arch");
        reveal_strlit("builddate");
        reveal_strlit("installdate");
        reveal_strlit("packager");
        reveal_strlit("reason");
        reveal_strlit("validation");
        reveal_strlit("size");
        reveal_strlit("replaces");
        reveal_strlit("depends");
        reveal_strlit("optdepends");
        reveal_strlit("makedepends");
        reveal_strlit("checkdepends");
        reveal_strlit("conflicts");
        reveal_strlit("provides");
        assert("name"@ =~= seq!['n', 'a', 'm', 'e']);
        assert("version"@ =~= seq!['v', 'e', 'r', 's', 'i', 'o', 'n']);
        assert("base"@ =~= seq!['b', 'a', 's', 'e']);
        assert("desc"@ =~= seq!['d', 'e', 's', 'c']);
        assert("groups"@ =~= seq!['g', 'r', 'o', 'u', 'p', 's']);
        assert("url"@ =~= seq!['u', 'r', 'l']);
        assert("license"@ =~= seq!['l', 'i', 'c', 'e', 'n', 's', 'e']);
        assert("arch"@ =~= seq!['a', 'r', 'c', 'h']);
        assert("builddate"@ =~= seq!['b', 'u', 'i', 'l', 'd', 'd', 'a', 't', 'e']);
        assert("installdate"@ =~= seq!['i', 'n', 's', 't', 'a', 'l', 'l', 'd', 'a', 't', 'e']);
        assert("packager"@ =~= seq!['p', 'a', 'c', 'k', 'a', 'g', 'e', 'r']);
        assert("reason"@ =~= seq!['r', 'e', 'a', 's', 'o', 'n']);
        assert("validation"@ =~= seq!['v', 'a', 'l', 'i', 'd', 'a', 't', 'i', 'o', 'n']);
        assert("size"@ =~= seq!['s', 'i', 'z', 'e']);
        assert("replaces"@ =~= seq!['r', 'e', 'p', 'l', 'a', 'c', 'e', 's']);
        assert("depends"@ =~= seq!['d', 'e', 'p', 'e', 'n', 'd', 's']);
        assert("optdepends"@ =~= seq!['o', 'p', 't', 'd', 'e', 'p', 'e', 'n', 'd', 's']);
        assert("makedepends"@ =~= seq!['m', 'a', 'k', 'e', 'd', 'e', 'p', 'e', 'n', 'd', 's']);
        assert("checkdepends"@ =~= seq!['c', 'h', 'e', 'c', 'k', 'd', 'e', 'p', 'e', 'n', 'd', 's']);
        assert("conflicts"@ =~= seq!['c', 'o', 'n', 'f', 'l', 'i', 'c', 't', 's']);
        assert("provides"@ =~= seq!['p', 'r', 'o', 'v', 'i', 'd', 'e', 's']);
    }
    let v: Vec<SchemaField> = vec![
        SchemaField { name: String::from_str("name"), shape: Shape::Scalar(ScalarShape::Text) },
        SchemaField { name: String::from_str("version"), shape: Shape::Scalar(ScalarShape::Text) },
        SchemaField { name: String::from_str("base"), shape: Shape::Optional(ScalarShape::Text) },
        SchemaField { name: String::from_str("desc"), shape: Shape::Scalar(ScalarShape::Text) },
        SchemaField { name: String::from_str("groups"), shape: Shape::List },
        SchemaField { name: String::from_str("url"), shape: Shape::Optional(ScalarShape::Text) },
        SchemaField { name: String::from_str("license"), shape: Shape::List },
        SchemaField { name: String::from_str("arch"), shape: Shape::Scalar(ScalarShape::Text) },
        SchemaField { name: String::from_str("builddate"), shape: Shape::Scalar(ScalarShape::Text) },
        SchemaField { name: String::from_str("installdate"), shape: Shape::Scalar(ScalarShape::Text) },
        SchemaField { name: String::from_str("packager"), shape: Shape::Scalar(ScalarShape::Text) },
        SchemaField { name: String::from_str("reason"), shape: Shape::Optional(ScalarShape::Text) },
        SchemaField { name: String::from_str("validation"), shape: Shape::List },
        SchemaField { name: String::from_str("size"), shape: Shape::Scalar(ScalarShape::Unsigned) },
        SchemaField { name: String::from_str("replaces"), shape: Shape::List },
        SchemaField { name: String::from_str("depends"), shape: Shape::List },
        SchemaField { name: String::from_str("optdepends"), shape: Shape::List },
        SchemaField { name: String::from_str("makedepends"), shape: Shape::List },
        SchemaField { name: String::from_str("checkdepends"), shape: Shape::List },
        SchemaField { name: String::from_str("conflicts"), shape: Shape::List },
        SchemaField { name: String::from_str("provides"), shape: Shape::List }
    ];
    proof {
        assert(de::view_schema(v@) =~= local_schema());
    }
    v
}

/// Are the decoded fields shaped like a local description?
pub open spec fn local_fields_ok(fs: Seq<FieldV>) -> bool {
    fs.len() == 21 &&
    as_text(fs[0].value) is Ok &&
    as_text(fs[1].value) is Ok &&
    as_opt_text(fs[2].value) is Ok &&
    as_text(fs[3].value) is Ok &&
    as_list(fs[4].value) is Ok &&
    as_opt_text(fs[5].value) is Ok &&
    as_list(fs[6].value) is Ok &&
    as_text(fs[7].value) is Ok &&
    as_text(fs[8].value) is Ok &&
    as_text(fs[9].value) is Ok &&
    as_text(fs[10].value) is Ok &&
    as_opt_text(fs[11].value) is Ok && reason_of((as_opt_text(fs[11].value))->Ok_0) is Ok &&
    as_list(fs[12].value) is Ok && validations_of((as_list(fs[12].value))->Ok_0) is Ok &&
    as_unsigned(fs[13].value) is Ok &&
    as_list(fs[14].value) is Ok &&
    as_list(fs[15].value) is Ok &&
    as_list(fs[16].value) is Ok &&
    as_list(fs[17].value) is Ok &&
    as_list(fs[18].value) is Ok &&
    as_list(fs[19].value) is Ok &&
    as_list(fs[20].value) is Ok
}

/// The local description the decoded fields carry.
pub open spec fn local_desc_of(fs: Seq<FieldV>) -> LocalDescV {
    LocalDescV {
        name: (as_text(fs[0].value))->Ok_0,
        version: (as_text(fs[1].value))->Ok_0,
        base: (as_opt_text(fs[2].value))->Ok_0,
        description: (as_text(fs[3].value))->Ok_0,
        groups: (as_list(fs[4].value))->Ok_0,
        url: (as_opt_text(fs[5].value))->Ok_0,
        license: (as_list(fs[6].value))->Ok_0,
        arch: (as_text(fs[7].value))->Ok_0,
        build_date: (as_text(fs[8].value))->Ok_0,
        install_date: (as_text(fs[9].value))->Ok_0,
        packager: (as_text(fs[10].value))->Ok_0,
        reason: (reason_of((as_opt_text(fs[11].value))->Ok_0))->Ok_0,
        validation: (validations_of((as_list(fs[12].value))->Ok_0))->Ok_0,
        size: (as_unsigned(fs[13].value))->Ok_0,
        replaces: (as_list(fs[14].value))->Ok_0,
        depends: (as_list(fs[15].value))->Ok_0,
        optional_depends: (as_list(fs[16].value))->Ok_0,
        make_depends: (as_list(fs[17].value))->Ok_0,
        check_depends: (as_list(fs[18].value))->Ok_0,
        conflicts: (as_list(fs[19].value))->Ok_0,
        provides: (as_list(fs[20].value))->Ok_0
    }
}

impl LocalPackageDescription {
    /// Convert a decoded record into a local description.
    pub fn from_record(rec: &Record) -> (r: Result<LocalPackageDescription, ()>)
        ensures
            local_fields_ok(rec@) ==> r is Ok && r->Ok_0@ == local_desc_of(rec@),
            !local_fields_ok(rec@) ==> r is Err,
    {
        if rec.fields.len() != 21 {
            return Err(());
        }
        proof {
            assert(forall|k: int|
                0 <= k < 21 ==> (#[trigger] rec@[k]).value == rec.fields@[k]@.value);
        }
    let name = match get_text(&rec.fields[0].value) {
        Ok(v) => v,
        Err(_) => {
            return Err(());
        },
    };
    let version = match get_text(&rec.fields[1].value) {
        Ok(v) => v,
        Err(_) => {
            return Err(());
        },
    };
    let base = match get_opt_text(&rec.fields[2].value) {
        Ok(v) => v,
        Err(_) => {
            return Err(());
        },
    };
    let description = match get_text(&rec.fields[3].value) {
        Ok(v) => v,
        Err(_) => {
            return Err(());
        },
    };
    let groups = match get_list(&rec.fields[4].value) {
        Ok(v) => v,
        Err(_) => {
            return Err(());
        },
    };
    let url = match get_opt_text(&rec.fields[5].value) {
        Ok(v) => v,
        Err(_) => {
            return Err(());
        },
    };
    let license = match get_list(&rec.fields[6].value) {
        Ok(v) => v,
        Err(_) => {
            return Err(());
        },
    };
    let arch = match get_text(&rec.fields[7].value) {
        Ok(v) => v,
        Err(_) => {
            return Err(());
        },
    };
    let build_date = match get_text(&rec.fields[8].value) {
        Ok(v) => v,
        Err(_) => {
            return Err(());
        },
    };
    let install_date = match get_text(&rec.fields[9].value) {
        Ok(v) => v,
        Err(_) => {
            return Err(());
        },
    };
    let packager = match get_text(&rec.fields[10].value) {
        Ok(v) => v,
        Err(_) => {
            return Err(());
        },
    };
    let reason = match get_reason(&rec.fields[11].value) {
        Ok(v) => v,
        Err(_) => {
            return Err(());
        },
    };
    let validation = match get_validations(&rec.fields[12].value) {
        Ok(v) => v,
        Err(_) => {
            return Err(());
        },
    };
    let size = match get_unsigned(&rec.fields[13].value) {
        Ok(v) => v,
        Err(_) => {
            return Err(());
        },
    };
    let replaces = match get_list(&rec.fields[14].value) {
        Ok(v) => v,
        Err(_) => {
            return Err(());
        },
    };
    let depends = match get_list(&rec.fields[15].value) {
        Ok(v) => v,
        Err(_) => {
            return Err(());
        },
    };
    let optional_depends = match get_list(&rec.fields[16].value) {
        Ok(v) => v,
        Err(_) => {
            return Err(());
        },
    };
    let make_depends = match get_list(&rec.fields[17].value) {
        Ok(v) => v,
        Err(_) => {
            return Err(());
        },
    };
    let check_depends = match get_list(&rec.fields[18].value) {
        Ok(v) => v,
        Err(_) => {
            return Err(());
        },
    };
    let conflicts = match get_list(&rec.fields[19].value) {
        Ok(v) => v,
        Err(_) => {
            return Err(());
        },
    };
    let provides = match get_list(&rec.fields[20].value) {
        Ok(v) => v,
        Err(_) => {
            return Err(());
        },
    };
        Ok(LocalPackageDescription {
            name,
        version,
        base,
        description,
        groups,
        url,
        license,
        arch,
        build_date,
        install_date,
        packager,
        reason,
        validation,
        size,
        replaces,
        depends,
        optional_depends,
        make_depends,
        check_depends,
        conflicts,
        provides
        })
    }
}

/// What parsing a local `desc` text yields.
pub open spec fn spec_parse_local_desc(s: Seq<char>) -> Result<LocalDescV, ()> {
    match spec_from_str(s, local_schema(), nl()) {
        Err(_) => Err(()),
        Ok(fs) => if local_fields_ok(fs) {
            Ok(local_desc_of(fs))
        } else {
            Err(())
        },
    }
}

/// Parse a local `desc` text.
pub fn parse_local_desc(s: &str) -> (r: Result<LocalPackageDescription, ()>)
    ensures
        match spec_parse_local_desc(s@) {
            Ok(d) => r is Ok && r->Ok_0@ == d,
            Err(_) => r is Err,
        },
{
    let schema = local_schema_fields();
    match de::from_str(s, &schema) {
        Err(_) => Err(()),
        Ok(rec) => LocalPackageDescription::from_record(&rec),
    }
}


/// A path with a literal leading `./` stripped.
pub open spec fn spec_strip_dot(p: Seq<char>) -> Seq<char> {
    if p.len() >= 2 && p[0] == '.' && p[1] == '/' {
        p.skip(2)
    } else {
        p
    }
}

/// Exec stripping of a leading `./`.
pub fn strip_dot(p: &str) -> (r: String)
    ensures
        r@ == spec_strip_dot(p@),
{
    let n = p.unicode_len();
    if n >= 2 && p.get_char(0) == '.' && p.get_char(1) == '/' {
        let s = p.substring_char(2, n).to_owned();
        proof {
            assert(p@.skip(2) =~= p@.subrange(2, p@.len() as int));
        }
        s
    } else {
        p.to_owned()
    }
}

/// Does the list of installed files contain this path?
fn contains_string(files: &Vec<String>, p: &str) -> (r: bool)
    ensures
        r == strings_view(files@).contains(p@),
{
    let mut k: usize = 0;
    while k < files.len()
        invariant
            k <= files@.len(),
            forall|j: int| 0 <= j < k ==> strings_view(files@)[j] != p@,
        decreases files@.len() - k,
    {
        if str_eq(files[k].as_str(), p) {
            proof {
                assert(strings_view(files@)[k as int] == p@);
            }
            return true;
        }
        k += 1;
    }
    proof {
        if strings_view(files@).contains(p@) {
            let j = choose|j: int|
                0 <= j < strings_view(files@).len() && strings_view(files@)[j] == p@;
            assert(strings_view(files@)[j] != p@);
        }
    }
    false
}

/// The manifest entries whose stripped path the package recorded as
/// installed: the manifest may hold extra bookkeeping entries.
pub open spec fn spec_reconcile(entries: Seq<MtreeEntryV>, files: Seq<Seq<char>>) -> Seq<
    MtreeEntryV,
>
    decreases entries.len(),
{
    if entries.len() == 0 {
        Seq::empty()
    } else {
        let rest = spec_reconcile(entries.drop_first(), files);
        if files.contains(spec_strip_dot(entries[0].path)) {
            seq![entries[0]] + rest
        } else {
            rest
        }
    }
}

/// Everything reconciliation keeps was recorded as installed.
pub proof fn lemma_reconcile_members(entries: Seq<MtreeEntryV>, files: Seq<Seq<char>>)
    ensures
        forall|i: int|
            0 <= i < spec_reconcile(entries, files).len() ==> files.contains(
                spec_strip_dot((#[trigger] spec_reconcile(entries, files)[i]).path),
            ),
    decreases entries.len(),
{
    if entries.len() > 0 {
        lemma_reconcile_members(entries.drop_first(), files);
    }
}

/// The manifest entries a vector stands for.
pub open spec fn entries_view(v: Seq<MtreeEntry>) -> Seq<MtreeEntryV> {
    v.map_values(|e: MtreeEntry| e@)
}

/// The typed manifest entries the raw parse triples stand for.
pub open spec fn spec_entries_from(raw: Seq<(Seq<char>, Option<u8>, Option<u64>)>) -> Seq<
    MtreeEntryV,
> {
    raw.map_values(
        |e: (Seq<char>, Option<u8>, Option<u64>)|
            MtreeEntryV {
                path: e.0,
                file_type: match e.1 {
                    Some(c) => Some(spec_filetype_from_code(c)),
                    None => None,
                },
                size: e.2,
            },
    )
}

/// Keep the manifest entries whose stripped path is in the installed list.
fn reconcile(entries: Vec<MtreeEntry>, files: &Vec<String>) -> (r: Vec<MtreeEntry>)
    ensures
        entries_view(r@) == spec_reconcile(entries_view(entries@), strings_view(files@)),
{
    let ghost ev = entries_view(entries@);
    let ghost fv = strings_view(files@);
    let mut out: Vec<MtreeEntry> = Vec::new();
    let mut k: usize = 0;
    proof {
        assert(ev.skip(0) =~= ev);
        assert(entries_view(out@) =~= Seq::<MtreeEntryV>::empty());
    }
    while k < entries.len()
        invariant
            k <= entries@.len(),
            ev == entries_view(entries@),
            fv == strings_view(files@),
            spec_reconcile(ev, fv) =~= entries_view(out@) + spec_reconcile(
                ev.skip(k as int),
                fv,
            ),
        decreases entries@.len() - k,
    {
        let ghost tail = ev.skip(k as int);
        proof {
            assert(tail[0] == entries@[k as int]@);
            assert(tail.drop_first() =~= ev.skip(k + 1));
        }
        let stripped = strip_dot(entries[k].path.as_str());
        if contains_string(files, stripped.as_str()) {
            let e = MtreeEntry {
                path: entries[k].path.clone(),
                file_type: entries[k].file_type,
                size: entries[k].size,
            };
            proof {
                assert(e@ == entries@[k as int]@);
                assert(entries_view(out@.push(e)) =~= entries_view(out@) + seq![tail[0]]);
                assert(entries_view(out@) + (seq![tail[0]] + spec_reconcile(ev.skip(k + 1), fv))
                    =~= (entries_view(out@) + seq![tail[0]]) + spec_reconcile(
                    ev.skip(k + 1),
                    fv,
                ));
            }
            out.push(e);
        }
        k += 1;
    }
    proof {
        assert(ev.skip(entries@.len() as int) =~= Seq::<MtreeEntryV>::empty());
        assert(entries_view(out@) + Seq::<MtreeEntryV>::empty() =~= entries_view(out@));
    }
    out
}

/// Convert the raw manifest tuples into typed entries.
fn convert_entries(raw: Vec<(String, Option<u8>, Option<u64>)>) -> (r: Vec<MtreeEntry>)
    ensures
        r@.len() == raw@.len(),
        forall|i: int|
            0 <= i < raw@.len() ==> (#[trigger] r@[i])@.path == raw@[i].0@ && r@[i]@.size
                == raw@[i].2 && r@[i]@.file_type == (match raw@[i].1 {
                Some(c) => Some(spec_filetype_from_code(c)),
                None => None::<FileType>,
            }),
{
    let mut out: Vec<MtreeEntry> = Vec::new();
    let mut k: usize = 0;
    while k < raw.len()
        invariant
            k <= raw@.len(),
            out@.len() == k,
            forall|i: int|
                0 <= i < k ==> (#[trigger] out@[i])@.path == raw@[i].0@ && out@[i]@.size
                    == raw@[i].2 && out@[i]@.file_type == (match raw@[i].1 {
                    Some(c) => Some(spec_filetype_from_code(c)),
                    None => None::<FileType>,
                }),
        decreases raw@.len() - k,
    {
        let (p, ty, sz) = (raw[k].0.clone(), raw[k].1, raw[k].2);
        let ft = match ty {
            Some(c) => Some(FileType::from_code(c)),
            None => None,
        };
        out.push(MtreeEntry { path: p, file_type: ft, size: sz });
        k += 1;
    }
    out
}

/// The expected fields of a `files` record.
pub open spec fn files_schema() -> Seq<SchemaFieldV> {
    seq![SchemaFieldV { name: seq!['f', 'i', 'l', 'e', 's'], shape: Shape::List }]
}

/// What parsing a `files` text yields: the installed path list.
pub open spec fn spec_parse_files(s: Seq<char>) -> Result<Seq<Seq<char>>, ()> {
    match spec_from_str(s, files_schema(), nl()) {
        Err(_) => Err(()),
        Ok(fs) => if fs.len() == 1 && as_list(fs[0].value) is Ok {
            Ok((as_list(fs[0].value))->Ok_0)
        } else {
            Err(())
        },
    }
}

/// Parse a `files` text into the installed path list.
pub fn parse_files(s: &str) -> (r: Result<Vec<String>, ()>)
    ensures
        match spec_parse_files(s@) {
            Ok(fl) => r is Ok && strings_view(r->Ok_0@) == fl,
            Err(_) => r is Err,
        },
{
    proof {
        reveal_strlit("files");
        assert("files"@ =~= seq!['f', 'i', 'l', 'e', 's']);
    }
    let schema: Vec<SchemaField> = vec![
        SchemaField { name: String::from_str("files"), shape: Shape::List },
    ];
    proof {
        assert(de::view_schema(schema@) =~= files_schema());
    }
    match de::from_str(s, &schema) {
        Err(_) => Err(()),
        Ok(rec) => {
            if rec.fields.len() != 1 {
                return Err(());
            }
            proof {
                assert(rec@[0].value == rec.fields@[0]@.value);
            }
            match get_list(&rec.fields[0].value) {
                Ok(fl) => Ok(fl),
                Err(_) => Err(()),
            }
        },
    }
}

/// A package from the local database: the database of installed packages.
#[derive(Debug, Clone)]
pub struct LocalPackage {
    /// Where on disk the package's database entry sits.
    pub path: String,
    desc: LocalPackageDescription,
    files: Vec<MtreeEntry>,
}

/// Does the `desc` text parse and record exactly this name and version?
pub open spec fn texts_consistent(desc_raw: Seq<char>, name: Seq<char>, version: Seq<char>) -> bool {
    &&& spec_parse_local_desc(desc_raw) is Ok
    &&& (spec_parse_local_desc(desc_raw))->Ok_0.name == name
    &&& (spec_parse_local_desc(desc_raw))->Ok_0.version == version
}

/// Is this error result an invalid-local-package error naming `n`?
pub open spec fn is_invalid_local(r: Result<LocalPackage, Error>, n: Seq<char>) -> bool {
    r is Err && r->Err_0.kind is InvalidLocalPackage
        && r->Err_0.kind->InvalidLocalPackage_0@ == n
}

impl LocalPackage {
    /// The database entry path.
    pub closed spec fn spec_path(&self) -> Seq<char> {
        self.path@
    }

    /// The description record.
    pub closed spec fn spec_desc(&self) -> LocalDescV {
        self.desc@
    }

    /// The reconciled manifest entries.
    pub closed spec fn spec_files(&self) -> Seq<MtreeEntryV> {
        entries_view(self.files@)
    }

    /// Load a local package out of the raw texts of its database entry:
    /// the `desc` record, the `files` list, and the gzip-compressed
    /// filesystem manifest.  The name and version recorded in `desc` must
    /// match the ones the entry's directory name carries, and the manifest
    /// must pass the tameness screen before it is parsed.
    pub fn from_local(
        path: String,
        name: &str,
        version: &str,
        desc_raw: &str,
        files_raw: &str,
        mtree_gz: &[u8],
    ) -> (r: Result<LocalPackage, Error>)
        ensures
            spec_parse_local_desc(desc_raw@) is Err ==> is_invalid_local(r, name@),
            (spec_parse_local_desc(desc_raw@) is Ok && (spec_parse_local_desc(desc_raw@))->Ok_0.name
                != name@) ==> is_invalid_local(r, name@),
            (spec_parse_local_desc(desc_raw@) is Ok && (spec_parse_local_desc(desc_raw@))->Ok_0.name
                == name@ && (spec_parse_local_desc(desc_raw@))->Ok_0.version != version@)
                ==> is_invalid_local(r, name@),
            (texts_consistent(desc_raw@, name@, version@) && spec_parse_files(files_raw@) is Err)
                ==> is_invalid_local(r, name@),
            (texts_consistent(desc_raw@, name@, version@) && spec_parse_files(files_raw@) is Ok
                && !gunzip_ok(mtree_gz@)) ==> r is Err && r->Err_0.kind is UnexpectedIo,
            (texts_consistent(desc_raw@, name@, version@) && spec_parse_files(files_raw@) is Ok
                && gunzip_ok(mtree_gz@) && !spec_mtree_tame(gunzip_of(mtree_gz@))) ==> r is Err
                && r->Err_0.kind is UnexpectedMtree,
            (texts_consistent(desc_raw@, name@, version@) && spec_parse_files(files_raw@) is Ok
                && gunzip_ok(mtree_gz@) && spec_mtree_tame(gunzip_of(mtree_gz@))) ==> r is Ok,
            r is Ok ==> ({
                let d = (spec_parse_local_desc(desc_raw@))->Ok_0;
                let fl = (spec_parse_files(files_raw@))->Ok_0;
                &&& spec_parse_local_desc(desc_raw@) is Ok
                &&& d.name == name@
                &&& d.version == version@
                &&& spec_parse_files(files_raw@) is Ok
                &&& gunzip_ok(mtree_gz@)
                &&& spec_mtree_tame(gunzip_of(mtree_gz@))
                &&& r->Ok_0.spec_path() == path@
                &&& r->Ok_0.spec_desc() == d
                &&& r->Ok_0.spec_files() == spec_reconcile(
                    spec_entries_from(mtree_entries_of(gunzip_of(mtree_gz@))),
                    fl,
                )
                &&& forall|i: int|
                    0 <= i < r->Ok_0.spec_files().len() ==> fl.contains(
                        spec_strip_dot((#[trigger] r->Ok_0.spec_files()[i]).path),
                    )
            }),
    {
        let desc = match parse_local_desc(desc_raw) {
            Ok(d) => d,
            Err(_) => {
                return Err(Error::from_kind(ErrorKind::InvalidLocalPackage(name.to_owned())));
            },
        };
        if !str_eq(desc.name.as_str(), name) {
            return Err(Error::from_kind(ErrorKind::InvalidLocalPackage(name.to_owned())));
        }
        if !str_eq(desc.version.as_str(), version) {
            return Err(Error::from_kind(ErrorKind::InvalidLocalPackage(name.to_owned())));
        }
        let files_list = match parse_files(files_raw) {
            Ok(fl) => fl,
            Err(_) => {
                return Err(Error::from_kind(ErrorKind::InvalidLocalPackage(name.to_owned())));
            },
        };
        let decompressed = match gzip_decode(mtree_gz) {
            Ok(b) => b,
            Err(_) => {
                return Err(Error::from_kind(ErrorKind::UnexpectedIo));
            },
        };
        if !mtree_input_tame(decompressed.as_slice()) {
            return Err(Error::from_kind(ErrorKind::UnexpectedMtree));
        }
        let raw_entries = match mtree_entry_list(decompressed.as_slice()) {
            Ok(es) => es,
            Err(_) => {
                return Err(Error::from_kind(ErrorKind::UnexpectedMtree));
            },
        };
        let entries = convert_entries(raw_entries);
        let kept = reconcile(entries, &files_list);
        proof {
            let rv = view_mtree_entries(raw_entries@);
            assert forall|i: int|
                0 <= i < entries@.len() implies entries_view(entries@)[i] == spec_entries_from(
                rv,
            )[i] by {
                assert(entries_view(entries@)[i] == entries@[i]@);
            }
            assert(entries_view(entries@) =~= spec_entries_from(rv));
            lemma_reconcile_members(
                entries_view(entries@),
                strings_view(files_list@),
            );
        }
        Ok(LocalPackage { path, desc, files: kept })
    }

    /// The reason this package was installed, if given.
    pub fn reason(&self) -> (r: Option<InstallReason>)
        ensures
            r == self.spec_desc().reason,
    {
        self.desc.reason
    }

    /// The available types of validation for this package.
    pub fn validation(&self) -> (r: &Vec<Validation>)
        ensures
            r@ == self.spec_desc().validation,
    {
        &self.desc.validation
    }

    /// Metadata for all files in this package.
    pub fn files(&self) -> (r: &Vec<MtreeEntry>)
        ensures
            entries_view(r@) == self.spec_files(),
    {
        &self.files
    }

    /// The paths of all files in this package.
    pub fn file_names(&self) -> (r: Vec<String>)
        ensures
            strings_view(r@).len() == self.spec_files().len(),
            forall|i: int|
                0 <= i < r@.len() ==> strings_view(r@)[i]
                    == (#[trigger] self.spec_files()[i]).path,
    {
        let mut out: Vec<String> = Vec::new();
        let mut k: usize = 0;
        while k < self.files.len()
            invariant
                k <= self.files@.len(),
                out@.len() == k,
                forall|i: int|
                    0 <= i < k ==> (#[trigger] out@[i])@ == self.spec_files()[i].path,
            decreases self.files@.len() - k,
        {
            out.push(self.files[k].path.clone());
            k += 1;
        }
        proof {
            assert forall|i: int|
                0 <= i < out@.len() implies strings_view(out@)[i] == self.spec_files()[i].path by {
                assert(strings_view(out@)[i] == out@[i]@);
            }
        }
        out
    }

    /// The number of files in the package.
    pub fn files_count(&self) -> (r: usize)
        ensures
            r == self.spec_files().len(),
    {
        self.files.len()
    }

    /// The size in bytes of this package as recorded in its description.
    pub fn size(&self) -> (r: u64)
        ensures
            r == self.spec_desc().size,
    {
        self.desc.size
    }

    /// The package name.
    pub fn name(&self) -> (r: &str)
        ensures
            r@ == self.spec_desc().name,
    {
        self.desc.name.as_str()
    }

    /// The package version.
    pub fn version(&self) -> (r: &str)
        ensures
            r@ == self.spec_desc().version,
    {
        self.desc.version.as_str()
    }

    /// The package description.
    pub fn description(&self) -> (r: &str)
        ensures
            r@ == self.spec_desc().description,
    {
        self.desc.description.as_str()
    }

    /// The package arch.
    pub fn arch(&self) -> (r: &str)
        ensures
            r@ == self.spec_desc().arch,
    {
        self.desc.arch.as_str()
    }

    /// The package build date.
    pub fn build_date(&self) -> (r: &str)
        ensures
            r@ == self.spec_desc().build_date,
    {
        self.desc.build_date.as_str()
    }

    /// The package install date.
    pub fn install_date(&self) -> (r: &str)
        ensures
            r@ == self.spec_desc().install_date,
    {
        self.desc.install_date.as_str()
    }

    /// The package packager.
    pub fn packager(&self) -> (r: &str)
        ensures
            r@ == self.spec_desc().packager,
    {
        self.desc.packager.as_str()
    }

    /// The package base, when one was recorded.
    pub fn base(&self) -> (r: Option<&str>)
        ensures
            r is Some <==> self.spec_desc().base is Some,
            r is Some ==> r->0@ == self.spec_desc().base->0,
    {
        match &self.desc.base {
            Some(s) => Some(s.as_str()),
            None => None,
        }
    }

    /// The package url, when one was recorded.
    pub fn url(&self) -> (r: Option<&str>)
        ensures
            r is Some <==> self.spec_desc().url is Some,
            r is Some ==> r->0@ == self.spec_desc().url->0,
    {
        match &self.desc.url {
            Some(s) => Some(s.as_str()),
            None => None,
        }
    }

    /// The `groups` name list.
    pub fn groups(&self) -> (r: &Vec<String>)
        ensures
            strings_view(r@) == self.spec_desc().groups,
    {
        &self.desc.groups
    }

    /// The `license` name list.
    pub fn license(&self) -> (r: &Vec<String>)
        ensures
            strings_view(r@) == self.spec_desc().license,
    {
        &self.desc.license
    }

    /// The `replaces` name list.
    pub fn replaces(&self) -> (r: &Vec<String>)
        ensures
            strings_view(r@) == self.spec_desc().replaces,
    {
        &self.desc.replaces
    }

    /// The `depends` name list.
    pub fn depends(&self) -> (r: &Vec<String>)
        ensures
            strings_view(r@) == self.spec_desc().depends,
    {
        &self.desc.depends
    }

    /// The `optional_depends` name list.
    pub fn optional_depends(&self) -> (r: &Vec<String>)
        ensures
            strings_view(r@) == self.spec_desc().optional_depends,
    {
        &self.desc.optional_depends
    }

    /// The `make_depends` name list.
    pub fn make_depends(&self) -> (r: &Vec<String>)
        ensures
            strings_view(r@) == self.spec_desc().make_depends,
    {
        &self.desc.make_depends
    }

    /// The `check_depends` name list.
    pub fn check_depends(&self) -> (r: &Vec<String>)
        ensures
            strings_view(r@) == self.spec_desc().check_depends,
    {
        &self.desc.check_depends
    }

    /// The `conflicts` name list.
    pub fn conflicts(&self) -> (r: &Vec<String>)
        ensures
            strings_view(r@) == self.spec_desc().conflicts,
    {
        &self.desc.conflicts
    }

    /// The `provides` name list.
    pub fn provides(&self) -> (r: &Vec<String>)
        ensures
            strings_view(r@) == self.spec_desc().provides,
    {
        &self.desc.provides
    }

}

/// The validation problems one manifest entry yields against what the
/// filesystem shows for it.
pub open spec fn file_errors(e: MtreeEntryV, root: Seq<char>, st: Option<FileStat>) -> Seq<
    ValidationErrorV,
> {
    match st {
        None => seq![
            ValidationErrorV::FileNotFound(crate::util::spec_join_path(root, e.path)),
        ],
        Some(st) => type_errors(e, st) + size_errors(e, st),
    }
}

/// A wrong-type problem, when the entry expects a checkable type and the
/// filesystem shows another.
pub open spec fn type_errors(e: MtreeEntryV, st: FileStat) -> Seq<ValidationErrorV> {
    match e.file_type {
        None => Seq::empty(),
        Some(ft) => if ft is Other {
            Seq::empty()
        } else if st.file_type == ft {
            Seq::empty()
        } else {
            seq![
                ValidationErrorV::WrongType {
                    filename: e.path,
                    expected: ft,
                    actual: st.file_type,
                },
            ]
        },
    }
}

/// A wrong-size problem, when the entry records a size and the filesystem
/// shows another.
pub open spec fn size_errors(e: MtreeEntryV, st: FileStat) -> Seq<ValidationErrorV> {
    match e.size {
        None => Seq::empty(),
        Some(sz) => if st.size == sz {
            Seq::empty()
        } else {
            seq![
                ValidationErrorV::WrongSize { filename: e.path, expected: sz, actual: st.size },
            ]
        },
    }
}

/// All validation problems, one entry after the other, none suppressing
/// another.
pub open spec fn spec_validate(
    files: Seq<MtreeEntryV>,
    root: Seq<char>,
    stats: Seq<Option<FileStat>>,
) -> Seq<ValidationErrorV>
    decreases files.len(),
{
    if files.len() == 0 || stats.len() == 0 {
        Seq::empty()
    } else {
        file_errors(files[0], root, stats[0]) + spec_validate(
            files.drop_first(),
            root,
            stats.drop_first(),
        )
    }
}

/// The problems a vector of them stands for.
pub open spec fn errors_view(v: Seq<ValidationError>) -> Seq<ValidationErrorV> {
    v.map_values(|e: ValidationError| e@)
}

impl LocalPackage {
    /// Make sure a package matches its metadata: for every manifest entry,
    /// the caller hands in what `symlink_metadata` showed under `root`
    /// (`None` when nothing is there), and every discrepancy is reported;
    /// validation is exhaustive, never stopping at the first problem.
    pub fn validate(&self, root: &str, stats: &Vec<Option<FileStat>>) -> (r: Vec<
        ValidationError,
    >)
        requires
            stats@.len() == self.spec_files().len(),
        ensures
            errors_view(r@) == spec_validate(self.spec_files(), root@, stats@),
    {
        let ghost fv = self.spec_files();
        let ghost sv = stats@;
        let mut out: Vec<ValidationError> = Vec::new();
        let mut k: usize = 0;
        proof {
            assert(fv.skip(0) =~= fv);
            assert(sv.skip(0) =~= sv);
            assert(errors_view(out@) =~= Seq::<ValidationErrorV>::empty());
        }
        while k < self.files.len()
            invariant
                k <= self.files@.len(),
                fv == self.spec_files(),
                sv == stats@,
                sv.len() == fv.len(),
                spec_validate(fv, root@, sv) =~= errors_view(out@) + spec_validate(
                    fv.skip(k as int),
                    root@,
                    sv.skip(k as int),
                ),
            decreases self.files@.len() - k,
        {
            let ghost ftail = fv.skip(k as int);
            let ghost stail = sv.skip(k as int);
            proof {
                assert(ftail[0] == self.files@[k as int]@);
                assert(stail[0] == sv[k as int]);
                assert(ftail.drop_first() =~= fv.skip(k + 1));
                assert(stail.drop_first() =~= sv.skip(k + 1));
            }
            let entry = &self.files[k];
            let ghost before = out@;
            match stats[k] {
                None => {
                    let full = crate::util::join_path(root, entry.path.as_str());
                    out.push(ValidationError::FileNotFound(full));
                },
                Some(st) => {
                    match entry.file_type {
                        Some(ft) => {
                            let checkable = match ft {
                                FileType::Other => false,
                                _ => true,
                            };
                            if checkable && !(st.file_type == ft) {
                                out.push(
                                    ValidationError::WrongType {
                                        filename: entry.path.clone(),
                                        expected: ft,
                                        actual: st.file_type,
                                    },
                                );
                            }
                        },
                        None => {},
                    }
                    match entry.size {
                        Some(sz) => {
                            if st.size != sz {
                                out.push(
                                    ValidationError::WrongSize {
                                        filename: entry.path.clone(),
                                        expected: sz,
                                        actual: st.size,
                                    },
                                );
                            }
                        },
                        None => {},
                    }
                },
            }
            proof {
                assert(errors_view(out@) =~= errors_view(before) + file_errors(
                    ftail[0],
                    root@,
                    stail[0],
                ));
                assert(errors_view(before) + (file_errors(ftail[0], root@, stail[0])
                    + spec_validate(fv.skip(k + 1), root@, sv.skip(k + 1))) =~= (errors_view(
                    before,
                ) + file_errors(ftail[0], root@, stail[0])) + spec_validate(
                    fv.skip(k + 1),
                    root@,
                    sv.skip(k + 1),
                ));
            }
            k += 1;
        }
        proof {
            assert(fv.skip(self.files@.len() as int) =~= Seq::<MtreeEntryV>::empty());
            assert(errors_view(out@) + Seq::<ValidationErrorV>::empty() =~= errors_view(out@));
        }
        out
    }

    /// The sum of the on-disk sizes the caller observed, skipping missing
    /// files.
    pub fn size_on_disk(&self, sizes: &Vec<Option<u64>>) -> (r: u64)
        requires
            sum_sizes(sizes@) <= u64::MAX,
        ensures
            r == sum_sizes(sizes@),
    {
        let ghost sv = sizes@;
        let mut acc: u64 = 0;
        let mut k: usize = 0;
        proof {
            assert(sv.skip(0) =~= sv);
            lemma_sum_sizes_nonneg(sv);
        }
        while k < sizes.len()
            invariant
                k <= sizes@.len(),
                sv == sizes@,
                sum_sizes(sv) <= u64::MAX,
                sum_sizes(sv) == acc + sum_sizes(sv.skip(k as int)),
            decreases sizes@.len() - k,
        {
            let ghost tail = sv.skip(k as int);
            proof {
                assert(tail[0] == sv[k as int]);
                assert(tail.drop_first() =~= sv.skip(k + 1));
                lemma_sum_sizes_nonneg(sv.skip(k + 1));
            }
            match sizes[k] {
                Some(sz) => {
                    acc = acc + sz;
                },
                None => {},
            }
            k += 1;
        }
        proof {
            assert(sv.skip(sizes@.len() as int) =~= Seq::<Option<u64>>::empty());
        }
        acc
    }
}

/// The sum of the observed sizes, a missing file counting zero.
pub open spec fn sum_sizes(s: Seq<Option<u64>>) -> int
    decreases s.len(),
{
    if s.len() == 0 {
        0
    } else {
        (match s[0] {
            Some(v) => v as int,
            None => 0,
        }) + sum_sizes(s.drop_first())
    }
}

/// Sizes never sum to less than nothing.
pub proof fn lemma_sum_sizes_nonneg(s: Seq<Option<u64>>)
    ensures
        sum_sizes(s) >= 0,
    decreases s.len(),
{
    if s.len() > 0 {
        lemma_sum_sizes_nonneg(s.drop_first());
    }
}


impl crate::package::Package for LocalPackage {
    fn name(&self) -> &str {
        self.desc.name.as_str()
    }

    fn version(&self) -> &str {
        self.desc.version.as_str()
    }

    fn description(&self) -> &str {
        self.desc.description.as_str()
    }

    fn arch(&self) -> &str {
        self.desc.arch.as_str()
    }

    fn size(&self) -> u64 {
        self.desc.size
    }
}

/// Does this problem speak of the entry at this manifest path, under this
/// root?  A missing file is reported under its root-joined path, the
/// other problems under the manifest path itself.
pub open spec fn mentions_path(e: ValidationErrorV, root: Seq<char>, p: Seq<char>) -> bool {
    match e {
        ValidationErrorV::FileNotFound(f) => f == crate::util::spec_join_path(root, p),
        ValidationErrorV::WrongType { filename, .. } => filename == p,
        ValidationErrorV::WrongSize { filename, .. } => filename == p,
    }
}

/// Joining two paths onto one base gives equal results only for equal
/// paths.
proof fn lemma_join_path_injective(root: Seq<char>, a: Seq<char>, b: Seq<char>)
    requires
        crate::util::spec_join_path(root, a) == crate::util::spec_join_path(root, b),
    ensures
        a == b,
{
    let ja = crate::util::spec_join_path(root, a);
    let jb = crate::util::spec_join_path(root, b);
    if root.len() > 0 && root[root.len() - 1] == '/' {
        assert(ja.len() == root.len() + a.len());
        assert(jb.len() == root.len() + b.len());
        assert(a.len() == b.len());
        assert forall|i: int| 0 <= i < a.len() implies a[i] == b[i] by {
            assert(ja[root.len() + i] == a[i]);
            assert(jb[root.len() + i] == b[i]);
        }
    } else {
        assert(ja.len() == root.len() + 1 + a.len());
        assert(jb.len() == root.len() + 1 + b.len());
        assert(a.len() == b.len());
        assert forall|i: int| 0 <= i < a.len() implies a[i] == b[i] by {
            assert(ja[root.len() + 1 + i] == a[i]);
            assert(jb[root.len() + 1 + i] == b[i]);
        }
    }
    assert(a =~= b);
}

/// A filter that keeps every element changes nothing.
proof fn lemma_filter_keeps_all(s: Seq<ValidationErrorV>, pred: spec_fn(ValidationErrorV) -> bool)
    requires
        forall|k: int| 0 <= k < s.len() ==> pred(#[trigger] s[k]),
    ensures
        s.filter(pred) == s,
    decreases s.len(),
{
    reveal(Seq::filter);
    if s.len() > 0 {
        lemma_filter_keeps_all(s.drop_last(), pred);
        assert(s.drop_last().push(s.last()) =~= s);
    }
}

/// A filter that keeps no element leaves nothing.
proof fn lemma_filter_drops_all(s: Seq<ValidationErrorV>, pred: spec_fn(ValidationErrorV) -> bool)
    requires
        forall|k: int| 0 <= k < s.len() ==> !pred(#[trigger] s[k]),
    ensures
        s.filter(pred) == Seq::<ValidationErrorV>::empty(),
    decreases s.len(),
{
    reveal(Seq::filter);
    if s.len() > 0 {
        lemma_filter_drops_all(s.drop_last(), pred);
    }
}

/// Each problem of one entry's own check speaks of that entry's path, and
/// of no other path.
proof fn lemma_file_errors_mention(
    e: MtreeEntryV,
    root: Seq<char>,
    st: Option<FileStat>,
    p: Seq<char>,
)
    ensures
        forall|k: int|
            0 <= k < file_errors(e, root, st).len() ==> (mentions_path(
                #[trigger] file_errors(e, root, st)[k],
                root,
                p,
            ) <==> p == e.path),
{
    assert forall|k: int| 0 <= k < file_errors(e, root, st).len() implies (mentions_path(
        #[trigger] file_errors(e, root, st)[k],
        root,
        p,
    ) <==> p == e.path) by {
        let err = file_errors(e, root, st)[k];
        match err {
            ValidationErrorV::FileNotFound(f) => {
                assert(f == crate::util::spec_join_path(root, e.path));
                if f == crate::util::spec_join_path(root, p) {
                    lemma_join_path_injective(root, e.path, p);
                }
            },
            ValidationErrorV::WrongType { filename, .. } => {
                assert(filename == e.path);
            },
            ValidationErrorV::WrongSize { filename, .. } => {
                assert(filename == e.path);
            },
        }
    }
}

/// Entries at other paths contribute no problem that speaks of this one.
proof fn lemma_validate_mentions_none(
    files: Seq<MtreeEntryV>,
    root: Seq<char>,
    stats: Seq<Option<FileStat>>,
    p: Seq<char>,
)
    requires
        forall|j: int| 0 <= j < files.len() ==> (#[trigger] files[j]).path != p,
    ensures
        spec_validate(files, root, stats).filter(
            |e: ValidationErrorV| mentions_path(e, root, p),
        ) == Seq::<ValidationErrorV>::empty(),
    decreases files.len(),
{
    let pred = |e: ValidationErrorV| mentions_path(e, root, p);
    if files.len() == 0 || stats.len() == 0 {
        lemma_filter_drops_all(spec_validate(files, root, stats), pred);
    } else {
        let head = file_errors(files[0], root, stats[0]);
        lemma_file_errors_mention(files[0], root, stats[0], p);
        lemma_filter_drops_all(head, pred);
        assert(forall|j: int|
            0 <= j < files.drop_first().len() ==> (#[trigger] files.drop_first()[j]).path != p);
        lemma_validate_mentions_none(files.drop_first(), root, stats.drop_first(), p);
        Seq::filter_distributes_over_add(
            head,
            spec_validate(files.drop_first(), root, stats.drop_first()),
            pred,
        );
    }
}

/// Law: when the manifest paths are distinct, the problems that speak of
/// one entry's path are exactly that entry's own problems, in order:
/// no other entry contributes one.
pub proof fn lemma_validate_per_file(
    files: Seq<MtreeEntryV>,
    root: Seq<char>,
    stats: Seq<Option<FileStat>>,
    i: int,
)
    requires
        files.len() == stats.len(),
        0 <= i < files.len(),
        forall|a: int, b: int|
            0 <= a < b < files.len() ==> (#[trigger] files[a]).path != (#[trigger] files[b]).path,
    ensures
        spec_validate(files, root, stats).filter(
            |e: ValidationErrorV| mentions_path(e, root, files[i].path),
        ) == file_errors(files[i], root, stats[i]),
    decreases files.len(),
{
    let p = files[i].path;
    let pred = |e: ValidationErrorV| mentions_path(e, root, p);
    let head = file_errors(files[0], root, stats[0]);
    let rest = spec_validate(files.drop_first(), root, stats.drop_first());
    Seq::filter_distributes_over_add(head, rest, pred);
    lemma_file_errors_mention(files[0], root, stats[0], p);
    if i == 0 {
        lemma_filter_keeps_all(head, pred);
        assert(forall|j: int|
            0 <= j < files.drop_first().len() ==> (#[trigger] files.drop_first()[j]).path != p);
        lemma_validate_mentions_none(files.drop_first(), root, stats.drop_first(), p);
        assert(head + Seq::<ValidationErrorV>::empty() =~= head);
    } else {
        assert(files[0].path != p);
        lemma_filter_drops_all(head, pred);
        assert(files.drop_first()[i - 1] == files[i]);
        assert(forall|a: int, b: int|
            0 <= a < b < files.drop_first().len() ==> (#[trigger] files.drop_first()[a]).path != (
            #[trigger] files.drop_first()[b]).path);
        lemma_validate_per_file(files.drop_first(), root, stats.drop_first(), i - 1);
        assert(Seq::<ValidationErrorV>::empty() + rest.filter(pred) =~= rest.filter(pred));
    }
}

} // verus!

