//! The mount-table parser: one record per line of the per-process mount
//! table, a remote-filesystem predicate, and a whole-table reader over the
//! table's text.
//!
//! A line has the shape
//! `id parent major:minor root mount_point options tag... - fstype source super_options`:
//! six fixed fields from the front, a variable-length optional-field region,
//! a literal `-` separator, and three fixed fields at the back. Dropping the
//! separator token and addressing the front group and the back group by
//! fixed offsets keeps every field's position stable however many
//! optional-field tokens a kernel emits.

use vstd::prelude::*;

use crate::text::{
    digits_val, is_uint_str, join_space, lemma_join_space_push, parse_usize, split_char,
    split_on_char, split_tokens, starts_with_spec, str_eq, str_starts_with, tokens_of,
    contains_char,
};

verus! {

/// The literal token that separates the optional-field region from the
/// fixed trailing fields.
pub open spec fn is_sep_tok(t: Seq<char>) -> bool {
    t == seq!['-']
}

/// The token list of a line with every separator token removed.
pub open spec fn remove_seps(ts: Seq<Seq<char>>) -> Seq<Seq<char>>
    decreases ts.len(),
{
    if ts.len() == 0 {
        seq![]
    } else {
        let rest = remove_seps(ts.drop_first());
        if is_sep_tok(ts[0]) {
            rest
        } else {
            seq![ts[0]] + rest
        }
    }
}

/// Removing separators commutes with appending one token.
pub proof fn lemma_remove_seps_push(ts: Seq<Seq<char>>, x: Seq<char>)
    ensures
        remove_seps(ts.push(x)) == (if is_sep_tok(x) {
            remove_seps(ts)
        } else {
            remove_seps(ts).push(x)
        }),
    decreases ts.len(),
{
    let q = ts.push(x);
    if ts.len() == 0 {
        assert(q[0] == x);
        assert(q.drop_first() =~= Seq::<Seq<char>>::empty());
        if !is_sep_tok(x) {
            assert(seq![x] + remove_seps(Seq::<Seq<char>>::empty()) =~= remove_seps(ts).push(x));
        }
    } else {
        assert(q[0] == ts[0]);
        assert(q.drop_first() =~= ts.drop_first().push(x));
        lemma_remove_seps_push(ts.drop_first(), x);
        if !is_sep_tok(x) && !is_sep_tok(ts[0]) {
            assert(seq![ts[0]] + remove_seps(ts.drop_first()).push(x) =~= (seq![ts[0]]
                + remove_seps(ts.drop_first())).push(x));
        }
    }
}

/// The positional fields of a line: its whitespace tokens with every
/// separator token removed.
pub open spec fn fields_of(line: Seq<char>) -> Seq<Seq<char>> {
    remove_seps(tokens_of(line))
}

/// Why a mount-table line was rejected.
#[derive(Debug, Clone, Copy, PartialEq, Eq, Structural)]
pub enum ParseError {
    /// Fewer tokens than the positional reads require, once separator
    /// tokens are removed.
    TooFewFields,
    /// The mount id or parent id is not a non-negative integer.
    InvalidInteger,
}

/// The mathematical content of a parsed mount-table line.
#[verifier::ext_equal]
pub struct MountModel {
    pub mount_id: int,
    pub parent_id: int,
    pub major_minor: Seq<char>,
    pub root: Seq<char>,
    pub mount_point: Seq<char>,
    pub mount_options: Seq<Seq<char>>,
    pub optional_fields: Seq<char>,
    pub fs_type: Seq<char>,
    pub mount_source: Seq<char>,
    pub super_options: Seq<char>,
}

/// The record built from a field list of at least nine tokens: six fixed
/// fields from the front, three fixed fields from the back, and whatever
/// stands between them re-joined as the opaque optional-field region.
pub open spec fn parsed_fields(f: Seq<Seq<char>>) -> MountModel {
    MountModel {
        mount_id: digits_val(f[0]),
        parent_id: digits_val(f[1]),
        major_minor: f[2],
        root: f[3],
        mount_point: f[4],
        mount_options: split_char(f[5], ','),
        optional_fields: join_space(f.subrange(6, f.len() - 3)),
        fs_type: f[f.len() - 3],
        mount_source: f[f.len() - 2],
        super_options: f[f.len() - 1],
    }
}

/// What parsing a mount-table line yields, for every possible line.
pub open spec fn parse_spec(line: Seq<char>) -> Result<MountModel, ParseError> {
    let f = fields_of(line);
    if f.len() < 9 {
        Err(ParseError::TooFewFields)
    } else if !is_uint_str(f[0]) || !is_uint_str(f[1]) {
        Err(ParseError::InvalidInteger)
    } else {
        Ok(parsed_fields(f))
    }
}

/// One row of the per-process mount table.
#[derive(Debug, Clone, PartialEq)]
pub struct MountInfo {
    /// The id of the mount; may be reused after an unmount.
    pub mount_id: usize,
    /// The id of the parent mount (or of this mount itself at the top of
    /// the mount tree).
    pub parent_id: usize,
    /// The `major:minor` device number of the underlying block device.
    pub major_minor: String,
    /// The root of the mount within its filesystem.
    pub root: String,
    /// The mount point relative to the process's root directory.
    pub mount_point: String,
    /// The per-mount options, one token per option.
    pub mount_options: Vec<String>,
    /// The optional-field region, kept opaque: zero or more `tag[:value]`
    /// tokens, space-joined.
    pub optional_fields: String,
    /// The filesystem type, possibly of the form `type.subtype`.
    pub fs_type: String,
    /// The filesystem-specific source, or the literal `none`.
    pub mount_source: String,
    /// The per-superblock options, kept as one comma-separated string.
    pub super_options: String,
}

impl MountInfo {
    /// The record's mathematical content.
    pub open spec fn model(self) -> MountModel {
        MountModel {
            mount_id: self.mount_id as int,
            parent_id: self.parent_id as int,
            major_minor: self.major_minor@,
            root: self.root@,
            mount_point: self.mount_point@,
            mount_options: self.mount_options.deep_view(),
            optional_fields: self.optional_fields@,
            fs_type: self.fs_type@,
            mount_source: self.mount_source@,
            super_options: self.super_options@,
        }
    }

    /// Parse one mount-table line.
    pub fn from_str(line: &str) -> (r: Result<MountInfo, ParseError>)
        ensures
            match r {
                Ok(m) => parse_spec(line@) == Ok::<MountModel, ParseError>(m.model()),
                Err(e) => parse_spec(line@) == Err::<MountModel, ParseError>(e),
            },
    {
        let toks = split_tokens(line);
        let mut f: Vec<String> = Vec::new();
        let mut i: usize = 0;
        proof {
            assert(toks.deep_view().take(0) =~= Seq::<Seq<char>>::empty());
            assert(f.deep_view() =~= Seq::<Seq<char>>::empty());
        }
        while i < toks.len()
            invariant
                i <= toks.len(),
                toks.deep_view() == tokens_of(line@),
                f.deep_view() == remove_seps(toks.deep_view().take(i as int)),
            decreases toks.len() - i,
        {
            let t = &toks[i];
            let is_sep = t.as_str().unicode_len() == 1 && t.as_str().get_char(0) == '-';
            proof {
                assert(toks.deep_view()[i as int] == toks@[i as int]@);
                if is_sep {
                    assert(t@ =~= seq!['-']);
                } else {
                    assert(seq!['-'].len() == 1);
                    assert(seq!['-'][0] == '-');
                    assert(t@ != seq!['-']);
                }
                assert(toks.deep_view().take(i + 1) =~= toks.deep_view().take(
                    i as int,
                ).push(t@));
                lemma_remove_seps_push(toks.deep_view().take(i as int), t@);
            }
            if !is_sep {
                let ghost dv0 = f.deep_view();
                let t2 = t.clone();
                f.push(t2);
                proof {
                    assert(f.deep_view() =~= dv0.push(t@));
                }
            }
            i = i + 1;
        }
        proof {
            assert(toks.deep_view().take(toks.len() as int) =~= toks.deep_view());
            assert(f.deep_view() == fields_of(line@));
        }
        if f.len() < 9 {
            return Err(ParseError::TooFewFields);
        }
        assert(f.deep_view()[0] == f@[0]@);
        assert(f.deep_view()[1] == f@[1]@);
        let mount_id = match parse_usize(f[0].as_str()) {
            Some(v) => v,
            None => {
                return Err(ParseError::InvalidInteger);
            },
        };
        let parent_id = match parse_usize(f[1].as_str()) {
            Some(v) => v,
            None => {
                return Err(ParseError::InvalidInteger);
            },
        };
        let major_minor = f[2].clone();
        let root = f[3].clone();
        let mount_point = f[4].clone();
        let mount_options = split_on_char(f[5].as_str(), ',');
        let len = f.len();
        let mut optional_fields = String::new();
        let mut j: usize = 6;
        proof {
            assert(f.deep_view().subrange(6, 6) =~= Seq::<Seq<char>>::empty());
        }
        while j < len - 3
            invariant
                6 <= j <= len - 3,
                len == f.len(),
                len >= 9,
                f.deep_view() == fields_of(line@),
                optional_fields@ == join_space(f.deep_view().subrange(6, j as int)),
            decreases len - 3 - j,
        {
            if j > 6 {
                optional_fields.append(" ");
            }
            optional_fields.append(f[j].as_str());
            proof {
                reveal_strlit(" ");
                assert(f.deep_view().subrange(6, j + 1) =~= f.deep_view().subrange(
                    6,
                    j as int,
                ).push(f.deep_view()[j as int]));
                lemma_join_space_push(f.deep_view().subrange(6, j as int), f.deep_view()[j as int]);
                assert(f.deep_view()[j as int] == f@[j as int]@);
            }
            j = j + 1;
        }
        let fs_type = f[len - 3].clone();
        let mount_source = f[len - 2].clone();
        let super_options = f[len - 1].clone();
        let m = MountInfo {
            mount_id,
            parent_id,
            major_minor,
            root,
            mount_point,
            mount_options,
            optional_fields,
            fs_type,
            mount_source,
            super_options,
        };
        proof {
            let fv = f.deep_view();
            assert(fv[2] == f@[2]@);
            assert(fv[3] == f@[3]@);
            assert(fv[4] == f@[4]@);
            assert(fv[5] == f@[5]@);
            assert(fv[len - 3] == f@[len - 3]@);
            assert(fv[len - 2] == f@[len - 2]@);
            assert(fv[len - 1] == f@[len - 1]@);
            assert(m.model() =~= parsed_fields(fv));
        }
        Ok(m)
    }

    /// Whether this mount's filesystem type names a remote filesystem: an
    /// NFS-style `host:/path` type containing a colon, an SMB/CIFS-family
    /// type beginning with `//`, a member of the fixed allowlist of
    /// remote-only filesystem types, or the automounter sentinel `-hosts`.
    /// A heuristic: uncommon remote types can be missed.
    pub fn is_remote(&self) -> (r: bool)
        ensures
            r == spec_is_remote(self.fs_type@),
    {
        let t = self.fs_type.as_str();
        contains_char(t, ':') || (str_starts_with(t, "//") && (str_eq(t, "cifs") || str_eq(
            t,
            "smb3",
        ) || str_eq(t, "smbfs"))) || str_eq(t, "afs") || str_eq(t, "coda") || str_eq(
            t,
            "auristorfs",
        ) || str_eq(t, "fhgfs") || str_eq(t, "gpfs") || str_eq(t, "ibrix") || str_eq(t, "ocfs2")
            || str_eq(t, "vxfs") || str_eq(t, "-hosts")
    }
}

/// Filesystem types that only ever name remote (distributed or cluster)
/// filesystems.
pub open spec fn remote_only_fs(t: Seq<char>) -> bool {
    ||| t == "afs"@
    ||| t == "coda"@
    ||| t == "auristorfs"@
    ||| t == "fhgfs"@
    ||| t == "gpfs"@
    ||| t == "ibrix"@
    ||| t == "ocfs2"@
    ||| t == "vxfs"@
}

/// The remote-filesystem predicate over a filesystem-type string.
pub open spec fn spec_is_remote(t: Seq<char>) -> bool {
    ||| t.contains(':')
    ||| (starts_with_spec(t, "//"@) && (t == "cifs"@ || t == "smb3"@ || t == "smbfs"@))
    ||| remote_only_fs(t)
    ||| t == "-hosts"@
}

/// The ten positional fields of a mount-table line, in order.
#[derive(Debug, Clone, Copy, PartialEq, Eq, Structural)]
pub enum MountInfoParameter {
    /// The id of the mount; may be reused after an unmount.
    MountID,
    /// The id of the parent mount.
    ParentID,
    /// The `major:minor` device number of the filesystem's device.
    MajorMinor,
    /// The root of the mount within the filesystem.
    Root,
    /// The mount point relative to the process's root.
    MountPoint,
    /// The per-mount options.
    MountOptions,
    /// Zero or more optional fields, terminated by the `-` separator.
    OptionalFields,
    /// The filesystem type.
    FsType,
    /// The filesystem-specific source, or `none`.
    MountSource,
    /// The per-superblock options.
    SuperOptions,
}

impl MountInfoParameter {
    /// The field's position among a line's tokens once separator tokens
    /// are removed, for a line with a single optional-field token.
    pub open spec fn spec_token_index(self) -> int {
        match self {
            MountInfoParameter::MountID => 0,
            MountInfoParameter::ParentID => 1,
            MountInfoParameter::MajorMinor => 2,
            MountInfoParameter::Root => 3,
            MountInfoParameter::MountPoint => 4,
            MountInfoParameter::MountOptions => 5,
            MountInfoParameter::OptionalFields => 6,
            MountInfoParameter::FsType => 7,
            MountInfoParameter::MountSource => 8,
            MountInfoParameter::SuperOptions => 9,
        }
    }

    /// Exec form of `spec_token_index`.
    pub fn token_index(self) -> (i: usize)
        ensures
            i as int == self.spec_token_index(),
    {
        match self {
            MountInfoParameter::MountID => 0,
            MountInfoParameter::ParentID => 1,
            MountInfoParameter::MajorMinor => 2,
            MountInfoParameter::Root => 3,
            MountInfoParameter::MountPoint => 4,
            MountInfoParameter::MountOptions => 5,
            MountInfoParameter::OptionalFields => 6,
            MountInfoParameter::FsType => 7,
            MountInfoParameter::MountSource => 8,
            MountInfoParameter::SuperOptions => 9,
        }
    }
}

/// The non-empty lines among `ls`.
pub open spec fn drop_blanks(ls: Seq<Seq<char>>) -> Seq<Seq<char>>
    decreases ls.len(),
{
    if ls.len() == 0 {
        seq![]
    } else {
        let rest = drop_blanks(ls.drop_first());
        if ls[0].len() == 0 {
            rest
        } else {
            seq![ls[0]] + rest
        }
    }
}

/// Dropping blank lines distributes over concatenation.
pub proof fn lemma_drop_blanks_concat(a: Seq<Seq<char>>, b: Seq<Seq<char>>)
    ensures
        drop_blanks(a + b) == drop_blanks(a) + drop_blanks(b),
    decreases a.len(),
{
    if a.len() == 0 {
        assert(a + b =~= b);
        assert(drop_blanks(a) =~= Seq::<Seq<char>>::empty());
        assert(drop_blanks(a) + drop_blanks(b) =~= drop_blanks(b));
    } else {
        assert((a + b)[0] == a[0]);
        assert((a + b).drop_first() =~= a.drop_first() + b);
        lemma_drop_blanks_concat(a.drop_first(), b);
        if a[0].len() != 0 {
            assert(seq![a[0]] + (drop_blanks(a.drop_first()) + drop_blanks(b)) =~= (seq![a[0]]
                + drop_blanks(a.drop_first())) + drop_blanks(b));
        }
    }
}

/// The non-empty lines of the mount table's text.
pub open spec fn nonblank_lines(text: Seq<char>) -> Seq<Seq<char>> {
    drop_blanks(split_char(text, '\n'))
}

/// What parsing a list of lines yields: the records of all of them in
/// order, or the first failing line together with its error.
pub open spec fn parse_lines_spec(ls: Seq<Seq<char>>) -> Result<
    Seq<MountModel>,
    (Seq<char>, ParseError),
>
    decreases ls.len(),
{
    if ls.len() == 0 {
        Ok(seq![])
    } else {
        match parse_spec(ls[0]) {
            Err(e) => Err((ls[0], e)),
            Ok(m) => match parse_lines_spec(ls.drop_first()) {
                Err(p) => Err(p),
                Ok(rest) => Ok(seq![m] + rest),
            },
        }
    }
}

/// Once a prefix of lines has parsed, the rest decides the outcome.
pub proof fn lemma_parse_lines_concat(a: Seq<Seq<char>>, b: Seq<Seq<char>>, ms: Seq<MountModel>)
    requires
        parse_lines_spec(a) == Ok::<Seq<MountModel>, (Seq<char>, ParseError)>(ms),
    ensures
        parse_lines_spec(a + b) == (match parse_lines_spec(b) {
            Err(p) => Err::<Seq<MountModel>, (Seq<char>, ParseError)>(p),
            Ok(ns) => Ok::<Seq<MountModel>, (Seq<char>, ParseError)>(ms + ns),
        }),
    decreases a.len(),
{
    if a.len() == 0 {
        assert(a + b =~= b);
        assert(ms =~= Seq::<MountModel>::empty());
        match parse_lines_spec(b) {
            Err(p) => {},
            Ok(ns) => {
                assert(ms + ns =~= ns);
            },
        }
    } else {
        assert((a + b)[0] == a[0]);
        assert((a + b).drop_first() =~= a.drop_first() + b);
        match parse_spec(a[0]) {
            Err(_) => {
                assert(false);
            },
            Ok(m0) => {
                match parse_lines_spec(a.drop_first()) {
                    Err(_) => {
                        assert(false);
                    },
                    Ok(ms2) => {
                        assert(ms == seq![m0] + ms2);
                        lemma_parse_lines_concat(a.drop_first(), b, ms2);
                        match parse_lines_spec(b) {
                            Err(p) => {},
                            Ok(ns) => {
                                assert(seq![m0] + (ms2 + ns) =~= (seq![m0] + ms2) + ns);
                            },
                        }
                    },
                }
            },
        }
    }
}

/// Success for a list of lines is owed exactly when every line parses;
/// the result then holds one record per line, in order, and a failure is
/// never silently skipped.
pub proof fn lemma_parse_lines_ok(ls: Seq<Seq<char>>)
    ensures
        (parse_lines_spec(ls) is Ok) <==> (forall|i: int|
            0 <= i < ls.len() ==> parse_spec(#[trigger] ls[i]) is Ok),
        parse_lines_spec(ls) matches Ok(ms) ==> ms.len() == ls.len() && (forall|i: int|
            0 <= i < ls.len() ==> Ok::<MountModel, ParseError>(#[trigger] ms[i]) == parse_spec(
                ls[i],
            )),
    decreases ls.len(),
{
    if ls.len() > 0 {
        let tail = ls.drop_first();
        lemma_parse_lines_ok(tail);
        assert(forall|i: int| 0 <= i < tail.len() ==> #[trigger] tail[i] == ls[i + 1]);
        match parse_spec(ls[0]) {
            Err(_) => {
                assert(!(parse_spec(ls[0]) is Ok));
            },
            Ok(m0) => {
                match parse_lines_spec(tail) {
                    Err(_) => {
                        let j = choose|j: int|
                            0 <= j < tail.len() && !(parse_spec(#[trigger] tail[j]) is Ok);
                        assert(!(parse_spec(ls[j + 1]) is Ok));
                    },
                    Ok(rest) => {
                        let ms = seq![m0] + rest;
                        assert(parse_lines_spec(ls) == Ok::<
                            Seq<MountModel>,
                            (Seq<char>, ParseError),
                        >(ms));
                        assert forall|i: int| 0 <= i < ls.len() implies Ok::<
                            MountModel,
                            ParseError,
                        >(#[trigger] ms[i]) == parse_spec(ls[i]) by {
                            if i > 0 {
                                assert(ms[i] == rest[i - 1]);
                                assert(tail[i - 1] == ls[i]);
                            }
                        }
                        assert forall|i: int| 0 <= i < ls.len() implies parse_spec(
                            #[trigger] ls[i],
                        ) is Ok by {
                            if i > 0 {
                                assert(tail[i - 1] == ls[i]);
                            }
                        }
                    },
                }
            },
        }
    }
}

/// The models of a list of parsed records.
pub open spec fn models_of(ms: Seq<MountInfo>) -> Seq<MountModel> {
    ms.map_values(|m: MountInfo| m.model())
}

/// A mount-table line that failed to parse, with its raw text.
#[derive(Debug, Clone, PartialEq)]
pub struct MountTableError {
    /// The offending line, verbatim.
    pub line: String,
    /// Why it was rejected.
    pub error: ParseError,
}

/// Parse the whole mount table's text: one record per non-empty line, in
/// order, failing fast on the first malformed line.
pub fn parse_mount_table(text: &str) -> (r: Result<Vec<MountInfo>, MountTableError>)
    ensures
        match r {
            Ok(v) => parse_lines_spec(nonblank_lines(text@)) == Ok::<
                Seq<MountModel>,
                (Seq<char>, ParseError),
            >(models_of(v@)),
            Err(e) => parse_lines_spec(nonblank_lines(text@)) == Err::<
                Seq<MountModel>,
                (Seq<char>, ParseError),
            >((e.line@, e.error)),
        },
{
    let lines = split_on_char(text, '\n');
    let mut out: Vec<MountInfo> = Vec::new();
    let mut i: usize = 0;
    proof {
        assert(lines.deep_view().take(0) =~= Seq::<Seq<char>>::empty());
        assert(models_of(out@) =~= Seq::<MountModel>::empty());
    }
    while i < lines.len()
        invariant
            i <= lines.len(),
            lines.deep_view() == split_char(text@, '\n'),
            parse_lines_spec(drop_blanks(lines.deep_view().take(i as int))) == Ok::<
                Seq<MountModel>,
                (Seq<char>, ParseError),
            >(models_of(out@)),
        decreases lines.len() - i,
    {
        let ghost lv = lines.deep_view();
        let ghost done = drop_blanks(lv.take(i as int));
        let line = &lines[i];
        proof {
            assert(lv[i as int] == lines@[i as int]@);
            assert(lv.take(i + 1) =~= lv.take(i as int) + seq![line@]);
            lemma_drop_blanks_concat(lv.take(i as int), seq![line@]);
            assert(seq![line@].drop_first() =~= Seq::<Seq<char>>::empty());
        }
        if line.as_str().unicode_len() > 0 {
            proof {
                assert(drop_blanks(Seq::<Seq<char>>::empty()) == Seq::<Seq<char>>::empty());
                assert(drop_blanks(seq![line@]) =~= seq![line@]);
            }
            match MountInfo::from_str(line.as_str()) {
                Ok(m) => {
                    proof {
                        lemma_parse_lines_concat(done, seq![line@], models_of(out@));
                        assert(parse_lines_spec(Seq::<Seq<char>>::empty()) == Ok::<
                            Seq<MountModel>,
                            (Seq<char>, ParseError),
                        >(Seq::<MountModel>::empty()));
                        assert(parse_lines_spec(seq![line@]) == Ok::<
                            Seq<MountModel>,
                            (Seq<char>, ParseError),
                        >(seq![m.model()] + Seq::<MountModel>::empty()));
                        assert(seq![m.model()] + Seq::<MountModel>::empty() =~= seq![m.model()]);
                        assert(drop_blanks(lv.take(i + 1)) =~= done + seq![line@]);
                    }
                    let ghost out0 = out@;
                    out.push(m);
                    proof {
                        assert(models_of(out@) =~= models_of(out0) + seq![m.model()]);
                    }
                },
                Err(e) => {
                    proof {
                        let whole = lv;
                        assert(whole =~= whole.take(i as int) + whole.skip(i as int));
                        lemma_drop_blanks_concat(whole.take(i as int), whole.skip(i as int));
                        assert(whole.skip(i as int)[0] == line@);
                        assert(whole.skip(i as int).drop_first() =~= whole.skip(i + 1));
                        assert(drop_blanks(whole.skip(i as int)) == seq![line@] + drop_blanks(
                            whole.skip(i + 1),
                        ));
                        lemma_parse_lines_concat(
                            drop_blanks(whole.take(i as int)),
                            drop_blanks(whole.skip(i as int)),
                            models_of(out@),
                        );
                        assert((seq![line@] + drop_blanks(whole.skip(i + 1)))[0] == line@);
                        assert((seq![line@] + drop_blanks(whole.skip(i + 1))).len() > 0);
                    }
                    return Err(MountTableError { line: line.clone(), error: e });
                },
            }
        } else {
            proof {
                assert(drop_blanks(Seq::<Seq<char>>::empty()) == Seq::<Seq<char>>::empty());
                assert(drop_blanks(seq![line@]) =~= Seq::<Seq<char>>::empty());
                assert(done + Seq::<Seq<char>>::empty() =~= done);
                assert(drop_blanks(lv.take(i + 1)) =~= done);
            }
        }
        i = i + 1;
    }
    proof {
        assert(lines.deep_view().take(lines.len() as int) =~= lines.deep_view());
    }
    Ok(out)
}

/// Parsing is a pure function of the line: two parses of the same line
/// yield the same outcome, field for field. There is no hidden state.
pub proof fn lemma_parse_deterministic(
    line: Seq<char>,
    r1: Result<MountModel, ParseError>,
    r2: Result<MountModel, ParseError>,
)
    requires
        r1 == parse_spec(line),
        r2 == parse_spec(line),
    ensures
        r1 == r2,
{
}

/// A line with exactly ten fields after separator removal — one
/// optional-field token — parses successfully, and each of the ten record
/// fields reproduces its token exactly.
pub proof fn lemma_parse_ten_fields(line: Seq<char>)
    requires
        fields_of(line).len() == 10,
        is_uint_str(fields_of(line)[0]),
        is_uint_str(fields_of(line)[1]),
    ensures
        parse_spec(line) == Ok::<MountModel, ParseError>(parsed_fields(fields_of(line))),
        parsed_fields(fields_of(line)).mount_id == digits_val(fields_of(line)[0]),
        parsed_fields(fields_of(line)).parent_id == digits_val(fields_of(line)[1]),
        parsed_fields(fields_of(line)).major_minor == fields_of(line)[2],
        parsed_fields(fields_of(line)).root == fields_of(line)[3],
        parsed_fields(fields_of(line)).mount_point == fields_of(line)[4],
        parsed_fields(fields_of(line)).mount_options == split_char(fields_of(line)[5], ','),
        parsed_fields(fields_of(line)).optional_fields == fields_of(line)[6],
        parsed_fields(fields_of(line)).fs_type == fields_of(line)[7],
        parsed_fields(fields_of(line)).mount_source == fields_of(line)[8],
        parsed_fields(fields_of(line)).super_options == fields_of(line)[9],
{
    let f = fields_of(line);
    assert(f.subrange(6, 7) =~= seq![f[6]]);
    assert(join_space(seq![f[6]]) == f[6]);
}

/// A line with fewer than nine fields after separator removal is rejected
/// with `TooFewFields` — never truncated.
pub proof fn lemma_too_few_fields(line: Seq<char>)
    requires
        fields_of(line).len() < 9,
    ensures
        parse_spec(line) == Err::<MountModel, ParseError>(ParseError::TooFewFields),
{
}

} // verus!
