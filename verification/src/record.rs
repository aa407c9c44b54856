//! The per-file record: one entry of the snapshot, with its coarse role,
//! structural tags, line metrics, and token estimate.
use vstd::prelude::*;

use crate::text::{
    ascii_bytes, contains_sub, ends_with, eq_bytes, lit, spec_contains, spec_ends_with, spec_lines,
    spec_lower_seq, spec_trim, split_lines, to_lower, trim,
};

verus! {

/// Coarse role of a file, for retrieval and ranking.
#[derive(Copy, Clone, Debug, PartialEq, Eq, Structural)]
pub enum Role {
    Bin,
    Lib,
    Test,
    Doc,
    Config,
    Script,
    Ui,
    Core,
    Other,
}

/// The canonical lowercase name of a role.
pub open spec fn spec_role_name(r: Role) -> Seq<u8> {
    match r {
        Role::Bin => ascii_bytes("bin"@),
        Role::Lib => ascii_bytes("lib"@),
        Role::Test => ascii_bytes("test"@),
        Role::Doc => ascii_bytes("doc"@),
        Role::Config => ascii_bytes("config"@),
        Role::Script => ascii_bytes("script"@),
        Role::Ui => ascii_bytes("ui"@),
        Role::Core => ascii_bytes("core"@),
        Role::Other => ascii_bytes("other"@),
    }
}

/// Case-insensitive parse of a role name; anything unknown is `Other`.
pub open spec fn spec_role_of(s: Seq<u8>) -> Role {
    let l = spec_lower_seq(s);
    if l == spec_role_name(Role::Bin) {
        Role::Bin
    } else if l == spec_role_name(Role::Lib) {
        Role::Lib
    } else if l == spec_role_name(Role::Test) {
        Role::Test
    } else if l == spec_role_name(Role::Doc) {
        Role::Doc
    } else if l == spec_role_name(Role::Config) {
        Role::Config
    } else if l == spec_role_name(Role::Script) {
        Role::Script
    } else if l == spec_role_name(Role::Ui) {
        Role::Ui
    } else if l == spec_role_name(Role::Core) {
        Role::Core
    } else {
        Role::Other
    }
}

impl Role {
    /// Parse a role name, ignoring ASCII case; unknown names become `Other`.
    pub fn from_str_ic(s: &[u8]) -> (r: Role)
        ensures
            r == spec_role_of(s@),
    {
        proof {
            reveal_strlit("bin");
            reveal_strlit("lib");
            reveal_strlit("test");
            reveal_strlit("doc");
            reveal_strlit("config");
            reveal_strlit("script");
            reveal_strlit("ui");
            reveal_strlit("core");
            reveal_strlit("other");
        }
        let l = to_lower(s);
        if eq_bytes(l.as_slice(), lit("bin").as_slice()) {
            Role::Bin
        } else if eq_bytes(l.as_slice(), lit("lib").as_slice()) {
            Role::Lib
        } else if eq_bytes(l.as_slice(), lit("test").as_slice()) {
            Role::Test
        } else if eq_bytes(l.as_slice(), lit("doc").as_slice()) {
            Role::Doc
        } else if eq_bytes(l.as_slice(), lit("config").as_slice()) {
            Role::Config
        } else if eq_bytes(l.as_slice(), lit("script").as_slice()) {
            Role::Script
        } else if eq_bytes(l.as_slice(), lit("ui").as_slice()) {
            Role::Ui
        } else if eq_bytes(l.as_slice(), lit("core").as_slice()) {
            Role::Core
        } else {
            Role::Other
        }
    }

    /// The canonical name of this role.
    pub fn as_str(self) -> (r: Vec<u8>)
        ensures
            r@ == spec_role_name(self),
    {
        proof {
            reveal_strlit("bin");
            reveal_strlit("lib");
            reveal_strlit("test");
            reveal_strlit("doc");
            reveal_strlit("config");
            reveal_strlit("script");
            reveal_strlit("ui");
            reveal_strlit("core");
            reveal_strlit("other");
        }
        match self {
            Role::Bin => lit("bin"),
            Role::Lib => lit("lib"),
            Role::Test => lit("test"),
            Role::Doc => lit("doc"),
            Role::Config => lit("config"),
            Role::Script => lit("script"),
            Role::Ui => lit("ui"),
            Role::Core => lit("core"),
            Role::Other => lit("other"),
        }
    }
}

impl Default for Role {
    fn default() -> (r: Role)
        ensures
            r == Role::Other,
    {
        Role::Other
    }
}

/// One snapshot entry: everything the indexer records about one file.
/// Textual fields hold UTF-8 bytes.
#[derive(Clone, Debug)]
pub struct FileIntentEntry {
    pub path: Vec<u8>,
    pub lang: Vec<u8>,
    pub sha1: Vec<u8>,
    pub size: usize,
    pub last_modified: Vec<u8>,
    pub snippet: Vec<u8>,
    pub tags: Vec<Vec<u8>>,
    pub summary: Option<Vec<u8>>,
    pub token_estimate: usize,
    pub role: Vec<u8>,
    pub module: Vec<u8>,
    pub imports: Vec<Vec<u8>>,
    pub exports: Vec<Vec<u8>>,
    pub lines_total: usize,
    pub lines_nonblank: usize,
    pub rel_dir: Vec<u8>,
    pub noise: bool,
}

impl Default for FileIntentEntry {
    fn default() -> (r: FileIntentEntry)
        ensures
            r.path@ == Seq::<u8>::empty(),
            r.lang@ == Seq::<u8>::empty(),
            r.sha1@ == Seq::<u8>::empty(),
            r.size == 0,
            r.last_modified@ == Seq::<u8>::empty(),
            r.snippet@ == Seq::<u8>::empty(),
            r.tags@ == Seq::<Vec<u8>>::empty(),
            r.summary is None,
            r.token_estimate == 0,
            r.role@ == Seq::<u8>::empty(),
            r.module@ == Seq::<u8>::empty(),
            r.imports@ == Seq::<Vec<u8>>::empty(),
            r.exports@ == Seq::<Vec<u8>>::empty(),
            r.lines_total == 0,
            r.lines_nonblank == 0,
            r.rel_dir@ == Seq::<u8>::empty(),
            r.noise == false,
    {
        FileIntentEntry {
            path: Vec::new(),
            lang: Vec::new(),
            sha1: Vec::new(),
            size: 0,
            last_modified: Vec::new(),
            snippet: Vec::new(),
            tags: Vec::new(),
            summary: None,
            token_estimate: 0,
            role: Vec::new(),
            module: Vec::new(),
            imports: Vec::new(),
            exports: Vec::new(),
            lines_total: 0,
            lines_nonblank: 0,
            rel_dir: Vec::new(),
            noise: false,
        }
    }
}

/// The fields no record mutator touches, held equal between two values.
pub open spec fn spec_same_base(a: FileIntentEntry, b: FileIntentEntry) -> bool {
    &&& a.path == b.path
    &&& a.lang == b.lang
    &&& a.sha1 == b.sha1
    &&& a.size == b.size
    &&& a.last_modified == b.last_modified
    &&& a.snippet == b.snippet
    &&& a.summary == b.summary
    &&& a.module == b.module
    &&& a.imports == b.imports
    &&& a.exports == b.exports
    &&& a.rel_dir == b.rel_dir
    &&& a.noise == b.noise
}

/// Whether a byte string occurs among a list of byte strings.
pub open spec fn spec_has(v: Seq<Seq<u8>>, needle: Seq<u8>) -> bool {
    exists|i: int| 0 <= i < v.len() && v[i] == needle
}

/// Whether `needle` is one of the strings of `v`.
pub fn has_item(v: &Vec<Vec<u8>>, needle: &[u8]) -> (r: bool)
    ensures
        r == spec_has(v.deep_view(), needle@),
{
    let mut i: usize = 0;
    while i < v.len()
        invariant
            i <= v@.len(),
            v.deep_view().len() == v@.len(),
            forall|j: int| 0 <= j < i ==> v.deep_view()[j] != needle@,
        decreases v@.len() - i,
    {
        if eq_bytes(v[i].as_slice(), needle) {
            proof {
                assert(v.deep_view()[i as int] == v@[i as int]@);
            }
            return true;
        }
        proof {
            assert(v.deep_view()[i as int] == v@[i as int]@);
        }
        i = i + 1;
    }
    false
}

/// Token estimate used when none was recorded: length over four, floored.
pub fn rough_token_estimate(s: &[u8]) -> (r: usize)
    ensures
        r == crate::spec_tokens_floor(s@),
        r >= 12,
{
    crate::estimate_tokens_fallback(s)
}

/// Number of lines whose trimmed content is nonempty.
pub open spec fn spec_count_nonblank(lines: Seq<Seq<u8>>) -> int
    decreases lines.len(),
{
    if lines.len() == 0 {
        0
    } else {
        spec_count_nonblank(lines.take(lines.len() - 1)) + if spec_trim(
            lines[lines.len() - 1],
        ).len() > 0 {
            1int
        } else {
            0int
        }
    }
}

impl FileIntentEntry {
    /// The role field parsed as an enum.
    pub fn role_enum(&self) -> (r: Role)
        ensures
            r == spec_role_of(self.role@),
    {
        Role::from_str_ic(self.role.as_slice())
    }

    /// Store the canonical name of `r` in the role field.
    pub fn set_role_enum(&mut self, r: Role)
        ensures
            final(self).role@ == spec_role_name(r),
            spec_same_base(*final(self), *old(self)),
            final(self).tags == old(self).tags,
            final(self).token_estimate == old(self).token_estimate,
            final(self).lines_total == old(self).lines_total,
            final(self).lines_nonblank == old(self).lines_nonblank,
    {
        self.role = r.as_str();
    }

    /// Grouping key for retrieval: `F:` + path + `:` + first eight hex
    /// characters of the content hash.
    pub fn stable_id(&self) -> (r: Vec<u8>)
        ensures
            r@ == ascii_bytes("F:"@) + self.path@ + ascii_bytes(":"@) + self.sha1@.take(
                if self.sha1@.len() < 8 {
                    self.sha1@.len() as int
                } else {
                    8
                },
            ),
    {
        proof {
            reveal_strlit("F:");
            reveal_strlit(":");
        }
        let mut out = lit("F:");
        crate::text::push_all(&mut out, self.path.as_slice());
        let colon = lit(":");
        crate::text::push_all(&mut out, colon.as_slice());
        let k = if self.sha1.len() < 8 {
            self.sha1.len()
        } else {
            8
        };
        let prefix = crate::text::sub_vec(self.sha1.as_slice(), 0, k);
        crate::text::push_all(&mut out, prefix.as_slice());
        proof {
            assert(self.sha1@.subrange(0, k as int) =~= self.sha1@.take(k as int));
        }
        out
    }

    /// Fill in the token estimate from the snippet when it is still zero.
    pub fn ensure_token_estimate(&mut self)
        ensures
            final(self).token_estimate == if old(self).token_estimate == 0 {
                crate::spec_tokens_floor(old(self).snippet@)
            } else {
                old(self).token_estimate
            },
            final(self).token_estimate > 0,
            spec_same_base(*final(self), *old(self)),
            final(self).tags == old(self).tags,
            final(self).role == old(self).role,
            final(self).lines_total == old(self).lines_total,
            final(self).lines_nonblank == old(self).lines_nonblank,
    {
        if self.token_estimate == 0 {
            self.token_estimate = rough_token_estimate(self.snippet.as_slice());
        }
    }

    /// Add a tag unless it is already present, keeping first-appearance order.
    pub fn tag(&mut self, t: Vec<u8>)
        ensures
            final(self).tags.deep_view() == if spec_has(old(self).tags.deep_view(), t@) {
                old(self).tags.deep_view()
            } else {
                old(self).tags.deep_view().push(t@)
            },
            spec_same_base(*final(self), *old(self)),
            final(self).role == old(self).role,
            final(self).token_estimate == old(self).token_estimate,
            final(self).lines_total == old(self).lines_total,
            final(self).lines_nonblank == old(self).lines_nonblank,
    {
        if !has_item(&self.tags, t.as_slice()) {
            let ghost tv = t@;
            self.tags.push(t);
            proof {
                assert(self.tags.deep_view() =~~= old(self).tags.deep_view().push(tv));
            }
        }
    }

    /// Count total and nonblank lines of the snippet.
    pub fn compute_line_metrics(&mut self)
        ensures
            final(self).lines_total == spec_lines(old(self).snippet@).len(),
            final(self).lines_nonblank == spec_count_nonblank(spec_lines(old(self).snippet@)),
            spec_same_base(*final(self), *old(self)),
            final(self).tags == old(self).tags,
            final(self).role == old(self).role,
            final(self).token_estimate == old(self).token_estimate,
    {
        let lines = split_lines(self.snippet.as_slice());
        let ghost lv = lines.deep_view();
        let mut nonblank: usize = 0;
        let mut i: usize = 0;
        while i < lines.len()
            invariant
                i <= lines@.len(),
                lv == lines.deep_view(),
                lv.len() == lines@.len(),
                nonblank == spec_count_nonblank(lv.take(i as int)),
                nonblank <= i,
            decreases lines@.len() - i,
        {
            let t = trim(lines[i].as_slice());
            proof {
                assert(lv[i as int] == lines@[i as int]@);
                assert(lv.take(i + 1).take(i as int) =~= lv.take(i as int));
                assert(lv.take(i + 1)[i as int] == lv[i as int]);
            }
            if t.len() > 0 {
                nonblank = nonblank + 1;
            }
            i = i + 1;
        }
        proof {
            assert(lv.take(lines@.len() as int) =~= lv);
        }
        self.lines_total = lines.len();
        self.lines_nonblank = nonblank;
    }

    /// Fill in the role from path and tag signals, but only while the current
    /// role still parses as `Other`.
    pub fn backfill_role(&mut self)
        ensures
            final(self).role@ == if spec_role_of(old(self).role@) != Role::Other {
                old(self).role@
            } else {
                spec_role_name(spec_backfill_guess(old(self).path@, old(self).tags.deep_view()))
            },
            spec_same_base(*final(self), *old(self)),
            final(self).tags == old(self).tags,
            final(self).token_estimate == old(self).token_estimate,
            final(self).lines_total == old(self).lines_total,
            final(self).lines_nonblank == old(self).lines_nonblank,
    {
        if self.role_enum() != Role::Other {
            return ;
        }
        proof {
            reveal_strlit("src/main.rs");
            reveal_strlit("/bin/");
            reveal_strlit("cli");
            reveal_strlit("/tests");
            reveal_strlit("_test.rs");
            reveal_strlit("test");
            reveal_strlit(".md");
            reveal_strlit("docs");
            reveal_strlit(".toml");
            reveal_strlit(".yml");
            reveal_strlit(".yaml");
            reveal_strlit(".env");
            reveal_strlit("config");
            reveal_strlit(".sh");
            reveal_strlit("script");
            reveal_strlit("/ui");
            reveal_strlit("ui");
            reveal_strlit("core");
        }
        let pl_vec = to_lower(self.path.as_slice());
        let pl = pl_vec.as_slice();
        let guess = if ends_with(pl, lit("src/main.rs").as_slice()) || contains_sub(
            pl,
            lit("/bin/").as_slice(),
        ) || has_item(&self.tags, lit("cli").as_slice()) {
            Role::Bin
        } else if contains_sub(pl, lit("/tests").as_slice()) || ends_with(
            pl,
            lit("_test.rs").as_slice(),
        ) || has_item(&self.tags, lit("test").as_slice()) {
            Role::Test
        } else if ends_with(pl, lit(".md").as_slice()) || has_item(
            &self.tags,
            lit("docs").as_slice(),
        ) {
            Role::Doc
        } else if ends_with(pl, lit(".toml").as_slice()) || ends_with(pl, lit(".yml").as_slice())
            || ends_with(pl, lit(".yaml").as_slice()) || ends_with(pl, lit(".env").as_slice())
            || has_item(&self.tags, lit("config").as_slice()) {
            Role::Config
        } else if ends_with(pl, lit(".sh").as_slice()) || has_item(
            &self.tags,
            lit("script").as_slice(),
        ) {
            Role::Script
        } else if contains_sub(pl, lit("/ui").as_slice()) || has_item(
            &self.tags,
            lit("ui").as_slice(),
        ) {
            Role::Ui
        } else if has_item(&self.tags, lit("core").as_slice()) {
            Role::Core
        } else {
            Role::Other
        };
        self.role = guess.as_str();
    }

    /// Whether the path points into a well-known build, cache, or vendor tree.
    pub fn is_probably_noise(&self) -> (r: bool)
        ensures
            r == (self.noise || spec_noise_path(self.path@)),
    {
        proof {
            reveal_strlit("/target/");
            reveal_strlit("/node_modules/");
            reveal_strlit("/dist/");
            reveal_strlit("/build/");
            reveal_strlit("/.cache/");
            reveal_strlit("/__pycache__/");
        }
        if self.noise {
            return true;
        }
        let pl = to_lower(self.path.as_slice());
        let p = pl.as_slice();
        contains_sub(p, lit("/target/").as_slice()) || contains_sub(
            p,
            lit("/node_modules/").as_slice(),
        ) || contains_sub(p, lit("/dist/").as_slice()) || contains_sub(
            p,
            lit("/build/").as_slice(),
        ) || contains_sub(p, lit("/.cache/").as_slice()) || contains_sub(
            p,
            lit("/__pycache__/").as_slice(),
        )
    }
}

/// The role suggested by path shape and tags, used when none is set yet.
pub open spec fn spec_backfill_guess(path: Seq<u8>, tags: Seq<Seq<u8>>) -> Role {
    let pl = spec_lower_seq(path);
    if spec_ends_with(pl, ascii_bytes("src/main.rs"@)) || spec_contains(pl, ascii_bytes("/bin/"@))
        || spec_has(tags, ascii_bytes("cli"@)) {
        Role::Bin
    } else if spec_contains(pl, ascii_bytes("/tests"@)) || spec_ends_with(
        pl,
        ascii_bytes("_test.rs"@),
    ) || spec_has(tags, ascii_bytes("test"@)) {
        Role::Test
    } else if spec_ends_with(pl, ascii_bytes(".md"@)) || spec_has(tags, ascii_bytes("docs"@)) {
        Role::Doc
    } else if spec_ends_with(pl, ascii_bytes(".toml"@)) || spec_ends_with(
        pl,
        ascii_bytes(".yml"@),
    ) || spec_ends_with(pl, ascii_bytes(".yaml"@)) || spec_ends_with(pl, ascii_bytes(".env"@))
        || spec_has(tags, ascii_bytes("config"@)) {
        Role::Config
    } else if spec_ends_with(pl, ascii_bytes(".sh"@)) || spec_has(tags, ascii_bytes("script"@)) {
        Role::Script
    } else if spec_contains(pl, ascii_bytes("/ui"@)) || spec_has(tags, ascii_bytes("ui"@)) {
        Role::Ui
    } else if spec_has(tags, ascii_bytes("core"@)) {
        Role::Core
    } else {
        Role::Other
    }
}

/// Whether the lowercased path contains a well-known noise directory.
pub open spec fn spec_noise_path(path: Seq<u8>) -> bool {
    let pl = spec_lower_seq(path);
    spec_contains(pl, ascii_bytes("/target/"@)) || spec_contains(
        pl,
        ascii_bytes("/node_modules/"@),
    ) || spec_contains(pl, ascii_bytes("/dist/"@)) || spec_contains(pl, ascii_bytes("/build/"@))
        || spec_contains(pl, ascii_bytes("/.cache/"@)) || spec_contains(
        pl,
        ascii_bytes("/__pycache__/"@),
    )
}

} // verus!
