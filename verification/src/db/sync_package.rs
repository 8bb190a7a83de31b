//! A package from a sync database: the description record carried by one
//! archive entry.

use vstd::prelude::*;
use crate::alpm_desc::de;
use crate::alpm_desc::de::spec_from_str;
use crate::alpm_desc::record::{
    Record, ScalarShape, SchemaField, SchemaFieldV, Shape, FieldV, as_text, as_opt_text,
    as_list, as_unsigned, get_text, get_opt_text, get_list, get_unsigned, strings_view,
};
use crate::alpm_desc::ser::nl;
use crate::error::{Error, ErrorKind};
use crate::util::str_eq;

verus! {

/// The description record of a package in a sync repository.
#[derive(Debug, Clone, PartialEq)]
pub struct SyncPackageDescription {
    pub filename: String,
    pub name: String,
    pub base: Option<String>,
    pub version: String,
    pub description: String,
    pub groups: Vec<String>,
    pub compressed_size: u64,
    pub installed_size: u64,
    pub md5sum: String,
    pub sha256sum: String,
    pub pgp_signature: String,
    pub url: Option<String>,
    pub license: Vec<String>,
    pub arch: String,
    pub build_date: String,
    pub packager: String,
    pub replaces: Vec<String>,
    pub depends: Vec<String>,
    pub optional_depends: Vec<String>,
    pub make_depends: Vec<String>,
    pub check_depends: Vec<String>,
    pub conflicts: Vec<String>,
    pub provides: Vec<String>,
}

/// The mathematical value of a sync description.
pub struct SyncDescV {
    pub filename: Seq<char>,
    pub name: Seq<char>,
    pub base: Option<Seq<char>>,
    pub version: Seq<char>,
    pub description: Seq<char>,
    pub groups: Seq<Seq<char>>,
    pub compressed_size: u64,
    pub installed_size: u64,
    pub md5sum: Seq<char>,
    pub sha256sum: Seq<char>,
    pub pgp_signature: Seq<char>,
    pub url: Option<Seq<char>>,
    pub license: Seq<Seq<char>>,
    pub arch: Seq<char>,
    pub build_date: Seq<char>,
    pub packager: Seq<char>,
    pub replaces: Seq<Seq<char>>,
    pub depends: Seq<Seq<char>>,
    pub optional_depends: Seq<Seq<char>>,
    pub make_depends: Seq<Seq<char>>,
    pub check_depends: Seq<Seq<char>>,
    pub conflicts: Seq<Seq<char>>,
    pub provides: Seq<Seq<char>>,
}

impl View for SyncPackageDescription {
    type V = SyncDescV;

    open spec fn view(&self) -> SyncDescV {
        SyncDescV {
            filename: self.filename@,
            name: self.name@,
            base: match self.base {
                Some(ref s) => Some(s@),
                None => None,
            },
            version: self.version@,
            description: self.description@,
            groups: strings_view(self.groups@),
            compressed_size: self.compressed_size,
            installed_size: self.installed_size,
            md5sum: self.md5sum@,
            sha256sum: self.sha256sum@,
            pgp_signature: self.pgp_signature@,
            url: match self.url {
                Some(ref s) => Some(s@),
                None => None,
            },
            license: strings_view(self.license@),
            arch: self.arch@,
            build_date: self.build_date@,
            packager: self.packager@,
            replaces: strings_view(self.replaces@),
            depends: strings_view(self.depends@),
            optional_depends: strings_view(self.optional_depends@),
            make_depends: strings_view(self.make_depends@),
            check_depends: strings_view(self.check_depends@),
            conflicts: strings_view(self.conflicts@),
            provides: strings_view(self.provides@),
        }
    }
}

/// The expected fields of a sync `desc` record, in emission order.
pub open spec fn sync_schema() -> Seq<SchemaFieldV> {
    seq![
        SchemaFieldV { name: seq!['f', 'i', 'l', 'e', 'n', 'a', 'm', 'e'], shape: Shape::Scalar(ScalarShape::Text) },
        SchemaFieldV { name: seq!['n', 'a', 'm', 'e'], shape: Shape::Scalar(ScalarShape::Text) },
        SchemaFieldV { name: seq!['b', 'a', 's', 'e'], shape: Shape::Optional(ScalarShape::Text) },
        SchemaFieldV { name: seq!['v', 'e', 'r', 's', 'i', 'o', 'n'], shape: Shape::Scalar(ScalarShape::Text) },
        SchemaFieldV { name: seq!['d', 'e', 's', 'c'], shape: Shape::Scalar(ScalarShape::Text) },
        SchemaFieldV { name: seq!['g', 'r', 'o', 'u', 'p', 's'], shape: Shape::List },
        SchemaFieldV { name: seq!['c', 's', 'i', 'z', 'e'], shape: Shape::Scalar(ScalarShape::Unsigned) },
        SchemaFieldV { name: seq!['i', 's', 'i', 'z', 'e'], shape: Shape::Scalar(ScalarShape::Unsigned) },
        SchemaFieldV { name: seq!['m', 'd', '5', 's', 'u', 'm'], shape: Shape::Scalar(ScalarShape::Text) },
        SchemaFieldV { name: seq!['s', 'h', 'a', '2', '5', '6', 's', 'u', 'm'], shape: Shape::Scalar(ScalarShape::Text) },
        SchemaFieldV { name: seq!['p', 'g', 'p', 's', 'i', 'g'], shape: Shape::Scalar(ScalarShape::Text) },
        SchemaFieldV { name: seq!['u', 'r', 'l'], shape: Shape::Optional(ScalarShape::Text) },
        SchemaFieldV { name: seq!['l', 'i', 'c', 'e', 'n', 's', 'e'], shape: Shape::List },
        SchemaFieldV { name: seq!['a', 'r', 'c', 'h'], shape: Shape::Scalar(ScalarShape::Text) },
        SchemaFieldV { name: seq!['b', 'u', 'i', 'l', 'd', 'd', 'a', 't', 'e'], shape: Shape::Scalar(ScalarShape::Text) },
        SchemaFieldV { name: seq!['p', 'a', 'c', 'k', 'a', 'g', 'e', 'r'], shape: Shape::Scalar(ScalarShape::Text) },
        SchemaFieldV { name: seq!['r', 'e', 'p', 'l', 'a', 'c', 'e', 's'], shape: Shape::List },
        SchemaFieldV { name: seq!['d', 'e', 'p', 'e', 'n', 'd', 's'], shape: Shape::List },
        SchemaFieldV { name: seq!['o', 'p', 't', 'd', 'e', 'p', 'e', 'n', 'd', 's'], shape: Shape::List },
        SchemaFieldV { name: seq!['m', 'a', 'k', 'e', 'd', 'e', 'p', 'e', 'n', 'd', 's'], shape: Shape::List },
        SchemaFieldV { name: seq!['c', 'h', 'e', 'c', 'k', 'd', 'e', 'p', 'e', 'n', 'd', 's'], shape: Shape::List },
        SchemaFieldV { name: seq!['c', 'o', 'n', 'f', 'l', 'i', 'c', 't', 's'], shape: Shape::List },
        SchemaFieldV { name: seq!['p', 'r', 'o', 'v', 'i', 'd', 'e', 's'], shape: Shape::List }
    ]
}

/// Build the sync `desc` schema.
pub fn sync_schema_fields() -> (v: Vec<SchemaField>)
    ensures
        de::view_schema(v@) == sync_schema(),
{
    proof {
        reveal_strlit("filename");
        reveal_strlit("name");
        reveal_strlit("base");
        reveal_strlit("version");
        reveal_strlit("desc");
        reveal_strlit("groups");
        reveal_strlit("csize");
        reveal_strlit("isize");
        reveal_strlit("md5sum");
        reveal_strlit("sha256sum");
        reveal_strlit("pgpsig");
        reveal_strlit("url");
        reveal_strlit("license");
        reveal_strlit("arch");
        reveal_strlit("builddate");
        reveal_strlit("packager");
        reveal_strlit("replaces");
        reveal_strlit("depends");
        reveal_strlit("optdepends");
        reveal_strlit("makedepends");
        reveal_strlit("checkdepends");
        reveal_strlit("conflicts");
        reveal_strlit("provides");
        assert("filename"@ =~= seq!['f', 'i', 'l', 'e', 'n', 'a', 'm', 'e']);
        assert("name"@ =~= seq!['n', 'a', 'm', 'e']);
        assert("base"@ =~= seq!['b', 'a', 's', 'e']);
        assert("version"@ =~= seq!['v', 'e', 'r', 's', 'i', 'o', 'n']);
        assert("desc"@ =~= seq!['d', 'e', 's', 'c']);
        assert("groups"@ =~= seq!['g', 'r', 'o', 'u', 'p', 's']);
        assert("csize"@ =~= seq!['c', 's', 'i', 'z', 'e']);
        assert("isize"@ =~= seq!['i', 's', 'i', 'z', 'e']);
        assert("md5sum"@ =~= seq!['m', 'd', '5', 's', 'u', 'm']);
        assert("sha256sum"@ =~= seq!['s', 'h', 'a', '2', '5', '6', 's', 'u', 'm']);
        assert("pgpsig"@ =~= seq!['p', 'g', 'p', 's', 'i', 'g']);
        assert("url"@ =~= seq!['u', 'r', 'l']);
        assert("license"@ =~= seq!['l', 'i', 'c', 'e', 'n', 's', 'e']);
        assert("arch"@ =~= seq!['a', 'r', 'c', 'h']);
        assert("builddate"@ =~= seq!['b', 'u', 'i', 'l', 'd', 'd', 'a', 't', 'e']);
        assert("packager"@ =~= seq!['p', 'a', 'c', 'k', 'a', 'g', 'e', 'r']);
        assert("replaces"@ =~= seq!['r', 'e', 'p', 'l', 'a', 'c', 'e', 's']);
        assert("depends"@ =~= seq!['d', 'e', 'p', 'e', 'n', 'd', 's']);
        assert("optdepends"@ =~= seq!['o', 'p', 't', 'd', 'e', 'p', 'e', 'n', 'd', 's']);
        assert("makedepends"@ =~= seq!['m', 'a', 'k', 'e', 'd', 'e', 'p', 'e', 'n', 'd', 's']);
        assert("checkdepends"@ =~= seq!['c', 'h', 'e', 'c', 'k', 'd', 'e', 'p', 'e', 'n', 'd', 's']);
        assert("conflicts"@ =~= seq!['c', 'o', 'n', 'f', 'l', 'i', 'c', 't', 's']);
        assert("provides"@ =~= seq!['p', 'r', 'o', 'v', 'i', 'd', 'e', 's']);
    }
    let v: Vec<SchemaField> = vec![
        SchemaField { name: String::from_str("filename"), shape: Shape::Scalar(ScalarShape::Text) },
        SchemaField { name: String::from_str("name"), shape: Shape::Scalar(ScalarShape::Text) },
        SchemaField { name: String::from_str("base"), shape: Shape::Optional(ScalarShape::Text) },
        SchemaField { name: String::from_str("version"), shape: Shape::Scalar(ScalarShape::Text) },
        SchemaField { name: String::from_str("desc"), shape: Shape::Scalar(ScalarShape::Text) },
        SchemaField { name: String::from_str("groups"), shape: Shape::List },
        SchemaField { name: String::from_str("csize"), shape: Shape::Scalar(ScalarShape::Unsigned) },
        SchemaField { name: String::from_str("isize"), shape: Shape::Scalar(ScalarShape::Unsigned) },
        SchemaField { name: String::from_str("md5sum"), shape: Shape::Scalar(ScalarShape::Text) },
        SchemaField { name: String::from_str("sha256sum"), shape: Shape::Scalar(ScalarShape::Text) },
        SchemaField { name: String::from_str("pgpsig"), shape: Shape::Scalar(ScalarShape::Text) },
        SchemaField { name: String::from_str("url"), shape: Shape::Optional(ScalarShape::Text) },
        SchemaField { name: String::from_str("license"), shape: Shape::List },
        SchemaField { name: String::from_str("arch"), shape: Shape::Scalar(ScalarShape::Text) },
        SchemaField { name: String::from_str("builddate"), shape: Shape::Scalar(ScalarShape::Text) },
        SchemaField { name: String::from_str("packager"), shape: Shape::Scalar(ScalarShape::Text) },
        SchemaField { name: String::from_str("replaces"), shape: Shape::List },
        SchemaField { name: String::from_str("depends"), shape: Shape::List },
        SchemaField { name: String::from_str("optdepends"), shape: Shape::List },
        SchemaField { name: String::from_str("makedepends"), shape: Shape::List },
        SchemaField { name: String::from_str("checkdepends"), shape: Shape::List },
        SchemaField { name: String::from_str("conflicts"), shape: Shape::List },
        SchemaField { name: String::from_str("provides"), shape: Shape::List }
    ];
    proof {
        assert(de::view_schema(v@) =~= sync_schema());
    }
    v
}

/// Are the decoded fields shaped like a sync description?
pub open spec fn sync_fields_ok(fs: Seq<FieldV>) -> bool {
    fs.len() == 23 &&
    as_text(fs[0].value) is Ok &&
    as_text(fs[1].value) is Ok &&
    as_opt_text(fs[2].value) is Ok &&
    as_text(fs[3].value) is Ok &&
    as_text(fs[4].value) is Ok &&
    as_list(fs[5].value) is Ok &&
    as_unsigned(fs[6].value) is Ok &&
    as_unsigned(fs[7].value) is Ok &&
    as_text(fs[8].value) is Ok &&
    as_text(fs[9].value) is Ok &&
    as_text(fs[10].value) is Ok &&
    as_opt_text(fs[11].value) is Ok &&
    as_list(fs[12].value) is Ok &&
    as_text(fs[13].value) is Ok &&
    as_text(fs[14].value) is Ok &&
    as_text(fs[15].value) is Ok &&
    as_list(fs[16].value) is Ok &&
    as_list(fs[17].value) is Ok &&
    as_list(fs[18].value) is Ok &&
    as_list(fs[19].value) is Ok &&
    as_list(fs[20].value) is Ok &&
    as_list(fs[21].value) is Ok &&
    as_list(fs[22].value) is Ok
}

/// The sync description the decoded fields carry.
pub open spec fn sync_desc_of(fs: Seq<FieldV>) -> SyncDescV {
    SyncDescV {
        filename: (as_text(fs[0].value))->Ok_0,
        name: (as_text(fs[1].value))->Ok_0,
        base: (as_opt_text(fs[2].value))->Ok_0,
        version: (as_text(fs[3].value))->Ok_0,
        description: (as_text(fs[4].value))->Ok_0,
        groups: (as_list(fs[5].value))->Ok_0,
        compressed_size: (as_unsigned(fs[6].value))->Ok_0,
        installed_size: (as_unsigned(fs[7].value))->Ok_0,
        md5sum: (as_text(fs[8].value))->Ok_0,
        sha256sum: (as_text(fs[9].value))->Ok_0,
        pgp_signature: (as_text(fs[10].value))->Ok_0,
        url: (as_opt_text(fs[11].value))->Ok_0,
        license: (as_list(fs[12].value))->Ok_0,
        arch: (as_text(fs[13].value))->Ok_0,
        build_date: (as_text(fs[14].value))->Ok_0,
        packager: (as_text(fs[15].value))->Ok_0,
        replaces: (as_list(fs[16].value))->Ok_0,
        depends: (as_list(fs[17].value))->Ok_0,
        optional_depends: (as_list(fs[18].value))->Ok_0,
        make_depends: (as_list(fs[19].value))->Ok_0,
        check_depends: (as_list(fs[20].value))->Ok_0,
        conflicts: (as_list(fs[21].value))->Ok_0,
        provides: (as_list(fs[22].value))->Ok_0
    }
}

impl SyncPackageDescription {
    /// Convert a decoded record into a sync description.
    pub fn from_record(rec: &Record) -> (r: Result<SyncPackageDescription, ()>)
        ensures
            sync_fields_ok(rec@) ==> r is Ok && r->Ok_0@ == sync_desc_of(rec@),
            !sync_fields_ok(rec@) ==> r is Err,
    {
        if rec.fields.len() != 23 {
            return Err(());
        }
        proof {
            assert(forall|k: int|
                0 <= k < 23 ==> (#[trigger] rec@[k]).value == rec.fields@[k]@.value);
        }
        let filename = match get_text(&rec.fields[0].value) {
            Ok(v) => v,
            Err(_) => {
                return Err(());
            },
        };
        let name = match get_text(&rec.fields[1].value) {
            Ok(v) => v,
            Err(_) => {
                return Err(());
            },
        };
        let base = match get_opt_text(&rec.fields[2].value) {
            Ok(v) => v,
            Err(_) => {
                return Err(());
            },
        };
        let version = match get_text(&rec.fields[3].value) {
            Ok(v) => v,
            Err(_) => {
                return Err(());
            },
        };
        let description = match get_text(&rec.fields[4].value) {
            Ok(v) => v,
            Err(_) => {
                return Err(());
            },
        };
        let groups = match get_list(&rec.fields[5].value) {
            Ok(v) => v,
            Err(_) => {
                return Err(());
            },
        };
        let compressed_size = match get_unsigned(&rec.fields[6].value) {
            Ok(v) => v,
            Err(_) => {
                return Err(());
            },
        };
        let installed_size = match get_unsigned(&rec.fields[7].value) {
            Ok(v) => v,
            Err(_) => {
                return Err(());
            },
        };
        let md5sum = match get_text(&rec.fields[8].value) {
            Ok(v) => v,
            Err(_) => {
                return Err(());
            },
        };
        let sha256sum = match get_text(&rec.fields[9].value) {
            Ok(v) => v,
            Err(_) => {
                return Err(());
            },
        };
        let pgp_signature = match get_text(&rec.fields[10].value) {
            Ok(v) => v,
            Err(_) => {
                return Err(());
            },
        };
        let url = match get_opt_text(&rec.fields[11].value) {
            Ok(v) => v,
            Err(_) => {
                return Err(());
            },
        };
        let license = match get_list(&rec.fields[12].value) {
            Ok(v) => v,
            Err(_) => {
                return Err(());
            },
        };
        let arch = match get_text(&rec.fields[13].value) {
            Ok(v) => v,
            Err(_) => {
                return Err(());
            },
        };
        let build_date = match get_text(&rec.fields[14].value) {
            Ok(v) => v,
            Err(_) => {
                return Err(());
            },
        };
        let packager = match get_text(&rec.fields[15].value) {
            Ok(v) => v,
            Err(_) => {
                return Err(());
            },
        };
        let replaces = match get_list(&rec.fields[16].value) {
            Ok(v) => v,
            Err(_) => {
                return Err(());
            },
        };
        let depends = match get_list(&rec.fields[17].value) {
            Ok(v) => v,
            Err(_) => {
                return Err(());
            },
        };
        let optional_depends = match get_list(&rec.fields[18].value) {
            Ok(v) => v,
            Err(_) => {
                return Err(());
            },
        };
        let make_depends = match get_list(&rec.fields[19].value) {
            Ok(v) => v,
            Err(_) => {
                return Err(());
            },
        };
        let check_depends = match get_list(&rec.fields[20].value) {
            Ok(v) => v,
            Err(_) => {
                return Err(());
            },
        };
        let conflicts = match get_list(&rec.fields[21].value) {
            Ok(v) => v,
            Err(_) => {
                return Err(());
            },
        };
        let provides = match get_list(&rec.fields[22].value) {
            Ok(v) => v,
            Err(_) => {
                return Err(());
            },
        };
        Ok(SyncPackageDescription {
            filename,
            name,
            base,
            version,
            description,
            groups,
            compressed_size,
            installed_size,
            md5sum,
            sha256sum,
            pgp_signature,
            url,
            license,
            arch,
            build_date,
            packager,
            replaces,
            depends,
            optional_depends,
            make_depends,
            check_depends,
            conflicts,
            provides,
        })
    }
}

/// What parsing a sync `desc` text yields.
pub open spec fn spec_parse_sync_desc(s: Seq<char>) -> Result<SyncDescV, ()> {
    match spec_from_str(s, sync_schema(), nl()) {
        Err(_) => Err(()),
        Ok(fs) => if sync_fields_ok(fs) {
            Ok(sync_desc_of(fs))
        } else {
            Err(())
        },
    }
}

/// Parse a sync `desc` text.
pub fn parse_sync_desc(s: &str) -> (r: Result<SyncPackageDescription, ()>)
    ensures
        match spec_parse_sync_desc(s@) {
            Ok(d) => r is Ok && r->Ok_0@ == d,
            Err(_) => r is Err,
        },
{
    let schema = sync_schema_fields();
    match de::from_str(s, &schema) {
        Err(_) => Err(()),
        Ok(rec) => SyncPackageDescription::from_record(&rec),
    }
}

/// A package from a sync database.
#[derive(Debug, Clone, PartialEq)]
pub struct SyncPackage {
    desc: SyncPackageDescription,
}

/// Is this error result an invalid-sync-package error naming `n`?
pub open spec fn is_invalid_sync(r: Result<SyncPackage, Error>, n: Seq<char>) -> bool {
    r is Err && r->Err_0.kind is InvalidSyncPackage
        && r->Err_0.kind->InvalidSyncPackage_0@ == n
}

impl SyncPackage {
    /// The description record.
    pub closed spec fn spec_desc(&self) -> SyncDescV {
        self.desc@
    }

    /// Build a sync package from the text of its archive entry, checking
    /// that the name and version recorded inside match the ones the entry
    /// path carries.  Succeeds exactly when the record parses and both
    /// match.
    pub fn from_parts(desc_raw: &str, name: &str, version: &str) -> (r: Result<
        SyncPackage,
        Error,
    >)
        ensures
            r is Ok <==> (spec_parse_sync_desc(desc_raw@) is Ok && (spec_parse_sync_desc(
                desc_raw@,
            ))->Ok_0.name == name@ && (spec_parse_sync_desc(desc_raw@))->Ok_0.version
                == version@),
            r is Ok ==> r->Ok_0.spec_desc() == (spec_parse_sync_desc(desc_raw@))->Ok_0,
            r is Err ==> is_invalid_sync(r, name@),
    {
        let desc = match parse_sync_desc(desc_raw) {
            Ok(d) => d,
            Err(_) => {
                return Err(Error::from_kind(ErrorKind::InvalidSyncPackage(name.to_owned())));
            },
        };
        if !str_eq(desc.name.as_str(), name) {
            return Err(Error::from_kind(ErrorKind::InvalidSyncPackage(name.to_owned())));
        }
        if !str_eq(desc.version.as_str(), version) {
            return Err(Error::from_kind(ErrorKind::InvalidSyncPackage(name.to_owned())));
        }
        Ok(SyncPackage { desc })
    }

    /// The package name.
    pub fn name(&self) -> (r: &str)
        ensures
            r@ == self.spec_desc().name,
    {
        self.desc.name.as_str()
    }

    /// The package version.
    pub fn version(&self) -> (r: &str)
        ensures
            r@ == self.spec_desc().version,
    {
        self.desc.version.as_str()
    }

    /// The package description.
    pub fn description(&self) -> (r: &str)
        ensures
            r@ == self.spec_desc().description,
    {
        self.desc.description.as_str()
    }

    /// The package arch.
    pub fn arch(&self) -> (r: &str)
        ensures
            r@ == self.spec_desc().arch,
    {
        self.desc.arch.as_str()
    }

    /// The package build date.
    pub fn build_date(&self) -> (r: &str)
        ensures
            r@ == self.spec_desc().build_date,
    {
        self.desc.build_date.as_str()
    }

    /// The package packager.
    pub fn packager(&self) -> (r: &str)
        ensures
            r@ == self.spec_desc().packager,
    {
        self.desc.packager.as_str()
    }

    /// The package filename.
    pub fn filename(&self) -> (r: &str)
        ensures
            r@ == self.spec_desc().filename,
    {
        self.desc.filename.as_str()
    }

    /// The package md5sum.
    pub fn md5sum(&self) -> (r: &str)
        ensures
            r@ == self.spec_desc().md5sum,
    {
        self.desc.md5sum.as_str()
    }

    /// The package sha256sum.
    pub fn sha256sum(&self) -> (r: &str)
        ensures
            r@ == self.spec_desc().sha256sum,
    {
        self.desc.sha256sum.as_str()
    }

    /// The package pgp signature.
    pub fn pgp_signature(&self) -> (r: &str)
        ensures
            r@ == self.spec_desc().pgp_signature,
    {
        self.desc.pgp_signature.as_str()
    }

    /// The package base, when one was recorded.
    pub fn base(&self) -> (r: Option<&str>)
        ensures
            r is Some <==> self.spec_desc().base is Some,
            r is Some ==> r->0@ == self.spec_desc().base->0,
    {
        match &self.desc.base {
            Some(s) => Some(s.as_str()),
            None => None,
        }
    }

    /// The package url, when one was recorded.
    pub fn url(&self) -> (r: Option<&str>)
        ensures
            r is Some <==> self.spec_desc().url is Some,
            r is Some ==> r->0@ == self.spec_desc().url->0,
    {
        match &self.desc.url {
            Some(s) => Some(s.as_str()),
            None => None,
        }
    }

    /// The `groups` name list.
    pub fn groups(&self) -> (r: &Vec<String>)
        ensures
            strings_view(r@) == self.spec_desc().groups,
    {
        &self.desc.groups
    }

    /// The `license` name list.
    pub fn license(&self) -> (r: &Vec<String>)
        ensures
            strings_view(r@) == self.spec_desc().license,
    {
        &self.desc.license
    }

    /// The `replaces` name list.
    pub fn replaces(&self) -> (r: &Vec<String>)
        ensures
            strings_view(r@) == self.spec_desc().replaces,
    {
        &self.desc.replaces
    }

    /// The `depends` name list.
    pub fn depends(&self) -> (r: &Vec<String>)
        ensures
            strings_view(r@) == self.spec_desc().depends,
    {
        &self.desc.depends
    }

    /// The `optional_depends` name list.
    pub fn optional_depends(&self) -> (r: &Vec<String>)
        ensures
            strings_view(r@) == self.spec_desc().optional_depends,
    {
        &self.desc.optional_depends
    }

    /// The `make_depends` name list.
    pub fn make_depends(&self) -> (r: &Vec<String>)
        ensures
            strings_view(r@) == self.spec_desc().make_depends,
    {
        &self.desc.make_depends
    }

    /// The `check_depends` name list.
    pub fn check_depends(&self) -> (r: &Vec<String>)
        ensures
            strings_view(r@) == self.spec_desc().check_depends,
    {
        &self.desc.check_depends
    }

    /// The `conflicts` name list.
    pub fn conflicts(&self) -> (r: &Vec<String>)
        ensures
            strings_view(r@) == self.spec_desc().conflicts,
    {
        &self.desc.conflicts
    }

    /// The `provides` name list.
    pub fn provides(&self) -> (r: &Vec<String>)
        ensures
            strings_view(r@) == self.spec_desc().provides,
    {
        &self.desc.provides
    }

    /// The installed size in bytes of this package.
    pub fn size(&self) -> (r: u64)
        ensures
            r == self.spec_desc().installed_size,
    {
        self.desc.installed_size
    }

    /// The compressed size in bytes of this package.
    pub fn compressed_size(&self) -> (r: u64)
        ensures
            r == self.spec_desc().compressed_size,
    {
        self.desc.compressed_size
    }

}


impl crate::package::Package for SyncPackage {
    fn name(&self) -> &str {
        self.desc.name.as_str()
    }

    fn version(&self) -> &str {
        self.desc.version.as_str()
    }

    fn description(&self) -> &str {
        self.desc.description.as_str()
    }

    fn arch(&self) -> &str {
        self.desc.arch.as_str()
    }

    fn size(&self) -> u64 {
        self.desc.installed_size
    }
}

} // verus!
