//! Generator configuration: the language to use, output paths, extra
//! formatter rules and extra files.
use vstd::prelude::*;
use crate::lang::{add_file_views, files_relative, files_relative_to, AddFile, AddFileView, Lang};
use crate::resource::GroupingStrategy;
use crate::text::{assoc, clone_pairs, from_chars, last_index_of, lemma_last_index_bounds, lookup, opt_view, pairs_view, rfind_char, to_chars};
use crate::util::{join_relative, joined_path};

verus! {

pub struct Config {
    /// The directory of the configuration file.
    pub path: String,
    /// A language name, or a path to a language specification file.
    pub lang: String,
    pub paths: Vec<(String, String)>,
    /// Formatter rules added to those of the language.
    pub helpers: Vec<(String, String)>,
    /// Additional files to generate.
    pub files: Vec<AddFile>,
    pub grouping_strategy: Option<GroupingStrategy>,
}

/// Whether the last component of `p` has an extension: a `.` after its
/// first character.
pub open spec fn has_extension(p: Seq<char>) -> bool {
    let name = p.subrange(last_index_of(p, '/') + 1, p.len() as int);
    last_index_of(name, '.') > 0
}

/// The file that holds the language specification named by `lang`: a path
/// with an extension is resolved against the configuration's directory;
/// a bare name `n` stands for the bundled `n/n.yaml`.
pub open spec fn lang_file_of(dir: Seq<char>, lang: Seq<char>) -> Seq<char> {
    if has_extension(lang) {
        joined_path(dir, lang)
    } else {
        lang + seq!['/'] + lang + ".yaml"@
    }
}

fn extension_present(p: &str) -> (r: bool)
    ensures
        r == has_extension(p@),
{
    let c = to_chars(p);
    let n = c.len();
    proof {
        lemma_last_index_bounds(c@, '/');
    }
    let start: usize = match rfind_char(&c, '/') {
        Some(k) => {
            assert(k < n);
            k + 1
        },
        None => 0,
    };
    let mut name: Vec<char> = Vec::new();
    let mut i: usize = start;
    while i < n
        invariant
            n == c@.len(),
            start <= i <= n,
            name@ == c@.subrange(start as int, i as int),
        decreases c@.len() - i,
    {
        name.push(c[i]);
        i = i + 1;
    }
    match rfind_char(&name, '.') {
        Some(k) => k > 0,
        None => false,
    }
}

impl Config {
    /// The output path named `path_key`: the configuration's own, else the
    /// language's default.
    pub fn get_path(&self, path_key: &str, lang: &Lang) -> (r: Option<String>)
        ensures
            opt_view(r) == match assoc(pairs_view(self.paths@), path_key@) {
                Some(p) => Some(p),
                None => assoc(pairs_view(lang.paths@), path_key@),
            },
    {
        match lookup(&self.paths, path_key) {
            Some(p) => Some(p),
            None => lang.default_path(path_key),
        }
    }

    /// The files to generate: the language's additional files when `lang`
    /// is given, then the configuration's own, each template resolved
    /// against the directory it was declared in.
    pub fn get_files(&self, lang: Option<&Lang>) -> (r: Vec<AddFile>)
        ensures
            add_file_views(r@) == (match lang {
                Some(l) => files_relative_to(l.path@, add_file_views(l.additional_files@)),
                None => Seq::<AddFileView>::empty(),
            }) + files_relative_to(self.path@, add_file_views(self.files@)),
    {
        let mut out = match lang {
            Some(l) => l.additional_files_relative(),
            None => Vec::new(),
        };
        let ghost a = out@;
        let mut own = files_relative(self.path.as_str(), &self.files);
        let ghost b = own@;
        out.append(&mut own);
        assert(add_file_views(out@) =~= add_file_views(a) + add_file_views(b));
        out
    }

    /// The file that holds the language specification.
    pub fn lang_file(&self) -> (r: String)
        ensures
            r@ == lang_file_of(self.path@, self.lang@),
    {
        if extension_present(self.lang.as_str()) {
            join_relative(self.path.as_str(), self.lang.as_str())
        } else {
            let mut out: Vec<char> = Vec::new();
            crate::text::push_str(&mut out, self.lang.as_str());
            out.push('/');
            crate::text::push_str(&mut out, self.lang.as_str());
            crate::text::push_str(&mut out, ".yaml");
            from_chars(out.as_slice())
        }
    }

    /// Adds the configuration's formatter rules to `lang`, ahead of the
    /// language's own, so that they take precedence.
    pub fn apply_helpers(&self, lang: &mut Lang)
        ensures
            *final(lang) == (Lang { format: final(lang).format, ..*old(lang) }),
            pairs_view(final(lang).format@) == pairs_view(self.helpers@) + pairs_view(old(lang).format@),
    {
        let mut rules = clone_pairs(&self.helpers);
        let ghost a = rules@;
        let ghost b = lang.format@;
        rules.append(&mut lang.format);
        lang.format = rules;
        assert(pairs_view(lang.format@) =~= pairs_view(a) + pairs_view(b));
    }
}

} // verus!
