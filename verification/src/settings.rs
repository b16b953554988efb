//! Formatter descriptors and the configuration table that holds them.

use vstd::prelude::*;
use vstd::string::*;

verus! {

/// The built-in configuration as a TOML document.
pub const DEFAULT_SETTINGS: &'static str = r#"
[fmt.python]
command = "black"
name = ["py", "python", "python3"]
extention = "py"

[fmt.rust]
command = "rustfmt"
name = ["rs", "rust"]
extention = "rs"

[fmt.js]
command = "prettier"
args = ["--write"]
name = ["js", "ts", "javascript", "typescript"]
extention = "js"
"#;

/// How to run one external formatter, and for which language tags.
#[derive(Debug, PartialEq, Eq)]
pub struct Lang {
    /// Executable name or path.
    pub command: String,
    /// Language tags this formatter answers to, compared in lower case.
    pub name: Vec<String>,
    /// Extra arguments, placed after the scratch file's path.
    pub args: Option<Vec<String>>,
    /// File extension of the scratch file, with or without its leading dot.
    pub extention: Option<String>,
}

/// Mathematical content of a [`Lang`].
pub struct LangView {
    pub command: Seq<char>,
    pub name: Seq<Seq<char>>,
    pub args: Option<Seq<Seq<char>>>,
    pub extention: Option<Seq<char>>,
}

/// An extension in leading-dot form: `py` becomes `.py`, `.py` stays.
pub open spec fn dotted(ext: Seq<char>) -> Seq<char> {
    if ext.len() > 0 && ext[0] == '.' {
        ext
    } else {
        seq!['.'] + ext
    }
}

impl LangView {
    /// True when `id` is one of the descriptor's language tags.
    pub open spec fn answers_to(self, id: Seq<char>) -> bool {
        self.name.contains(id)
    }

    /// The configured extension in leading-dot form.
    pub open spec fn ext(self) -> Option<Seq<char>> {
        match self.extention {
            Some(e) => Some(dotted(e)),
            None => None,
        }
    }
}

impl View for Lang {
    type V = LangView;

    open spec fn view(&self) -> LangView {
        LangView {
            command: self.command@,
            name: self.name.deep_view(),
            args: self.args.deep_view(),
            extention: self.extention.deep_view(),
        }
    }
}

impl DeepView for Lang {
    type V = LangView;

    open spec fn deep_view(&self) -> LangView {
        self@
    }
}

/// Copies a list of strings.
fn clone_strings(v: &Vec<String>) -> (res: Vec<String>)
    ensures
        res.deep_view() == v.deep_view(),
{
    let mut out: Vec<String> = Vec::new();
    let mut i: usize = 0;
    while i < v.len()
        invariant
            i <= v.len(),
            out.len() == i,
            forall|j: int| 0 <= j < i ==> out[j]@ == v[j]@,
        decreases v.len() - i,
    {
        out.push(v[i].clone());
        i += 1;
    }
    assert(out.deep_view() =~= v.deep_view());
    out
}

impl Clone for Lang {
    fn clone(&self) -> (res: Lang)
        ensures
            res@ == self@,
    {
        Lang {
            command: self.command.clone(),
            name: clone_strings(&self.name),
            args: match &self.args {
                Some(a) => Some(clone_strings(a)),
                None => None,
            },
            extention: match &self.extention {
                Some(e) => Some(e.clone()),
                None => None,
            },
        }
    }
}

/// Copies a list of string slices into owned strings.
fn own_strings(v: &Vec<&str>) -> (res: Vec<String>)
    ensures
        res.deep_view() == v.deep_view(),
{
    let mut out: Vec<String> = Vec::new();
    let mut i: usize = 0;
    while i < v.len()
        invariant
            i <= v.len(),
            out.len() == i,
            forall|j: int| 0 <= j < i ==> out[j]@ == v[j]@,
        decreases v.len() - i,
    {
        out.push(v[i].to_owned());
        i += 1;
    }
    assert(out.deep_view() =~= v.deep_view());
    out
}

impl Lang {
    /// Builds a descriptor from borrowed text.
    pub fn new(command: &str, name: Vec<&str>, args: Option<Vec<&str>>, ext: Option<&str>) -> (res:
        Lang)
        ensures
            res@ == (LangView {
                command: command@,
                name: name.deep_view(),
                args: args.deep_view(),
                extention: ext.deep_view(),
            }),
    {
        Lang {
            command: command.to_owned(),
            name: own_strings(&name),
            args: match &args {
                Some(a) => Some(own_strings(a)),
                None => None,
            },
            extention: match ext {
                Some(e) => Some(e.to_owned()),
                None => None,
            },
        }
    }

    /// True when `language_name` is one of this descriptor's tags.
    pub fn contain_language_name(&self, language_name: &String) -> (found: bool)
        ensures
            found == self@.answers_to(language_name@),
    {
        let mut i: usize = 0;
        while i < self.name.len()
            invariant
                i <= self.name.len(),
                forall|j: int| 0 <= j < i ==> self.name[j]@ != language_name@,
            decreases self.name.len() - i,
        {
            if self.name[i] == *language_name {
                assert(self.name.deep_view()[i as int] == language_name@);
                return true;
            }
            i += 1;
        }
        assert forall|j: int| 0 <= j < self.name.deep_view().len() implies self.name.deep_view()[j]
            != language_name@ by {}
        false
    }

    /// The executable to run.
    pub fn command(&self) -> (res: String)
        ensures
            res@ == self@.command,
    {
        self.command.clone()
    }

    /// The extra arguments, if any are configured.
    pub fn args(&self) -> (res: Option<Vec<String>>)
        ensures
            res.deep_view() == self@.args,
    {
        match &self.args {
            Some(a) => Some(clone_strings(a)),
            None => None,
        }
    }

    /// The scratch file's extension in leading-dot form, if one is configured.
    pub fn ext(&self) -> (res: Option<String>)
        ensures
            res.deep_view() == self@.ext(),
    {
        match &self.extention {
            Some(e) => {
                let s = e.as_str();
                if !s.is_empty() && s.get_char(0) == '.' {
                    Some(e.clone())
                } else {
                    proof {
                        reveal_strlit(".");
                        assert("."@ =~= seq!['.']);
                    }
                    Some(String::from_str(".").concat(s))
                }
            },
            None => None,
        }
    }
}

/// True when no key occurs twice among `entries`.
pub open spec fn keys_distinct(entries: Seq<(Seq<char>, LangView)>) -> bool {
    forall|i: int, j: int|
        0 <= i < j < entries.len() ==> (#[trigger] entries[i]).0 != (#[trigger] entries[j]).0
}

/// Position of `key` among `entries`, or `None` where it has no entry.
pub open spec fn position_of(entries: Seq<(Seq<char>, LangView)>, key: Seq<char>) -> Option<int>
    decreases entries.len(),
{
    if entries.len() == 0 {
        None
    } else if entries.last().0 == key {
        Some(entries.len() - 1)
    } else {
        position_of(entries.drop_last(), key)
    }
}

/// `entries` with `key` bound to `lang`: an existing entry keeps its place,
/// a new one goes to the end.
pub open spec fn with_entry(
    entries: Seq<(Seq<char>, LangView)>,
    key: Seq<char>,
    lang: LangView,
) -> Seq<(Seq<char>, LangView)> {
    match position_of(entries, key) {
        Some(i) => entries.update(i, (key, lang)),
        None => entries.push((key, lang)),
    }
}

/// What `position_of` finds: an index that holds `key`, or nothing when no index does.
pub proof fn lemma_position_of(entries: Seq<(Seq<char>, LangView)>, key: Seq<char>)
    ensures
        match position_of(entries, key) {
            Some(i) => 0 <= i < entries.len() && entries[i].0 == key,
            None => forall|j: int| 0 <= j < entries.len() ==> (#[trigger] entries[j]).0 != key,
        },
    decreases entries.len(),
{
    if entries.len() > 0 && entries.last().0 != key {
        lemma_position_of(entries.drop_last(), key);
        let rest = entries.drop_last();
        if position_of(rest, key) is None {
            assert forall|j: int| 0 <= j < entries.len() implies (#[trigger] entries[j]).0
                != key by {
                if j < rest.len() {
                    assert(rest[j] == entries[j]);
                }
            }
        }
    }
}

/// The entries of the built-in configuration: `black` for Python, `rustfmt`
/// for Rust, `prettier` for JavaScript and TypeScript.
pub open spec fn default_entries() -> Seq<(Seq<char>, LangView)> {
    seq![
        (
            "python"@,
            LangView {
                command: "black"@,
                name: seq!["py"@, "python"@, "python3"@],
                args: None,
                extention: Some("py"@),
            },
        ),
        (
            "rust"@,
            LangView {
                command: "rustfmt"@,
                name: seq!["rs"@, "rust"@],
                args: None,
                extention: Some("rs"@),
            },
        ),
        (
            "js"@,
            LangView {
                command: "prettier"@,
                name: seq!["js"@, "ts"@, "javascript"@, "typescript"@],
                args: Some(seq!["--write"@]),
                extention: Some("js"@),
            },
        ),
    ]
}

/// The configuration: an ordered table from a key to a formatter descriptor.
///
/// A key names its entry and takes no part in matching a language tag. Entries
/// keep the order in which their keys were first inserted, and that order
/// decides between descriptors that share a tag.
#[derive(Debug, PartialEq, Eq)]
pub struct Settings {
    entries: Vec<(String, Lang)>,
}

/// The mathematical content of a list of entries.
pub open spec fn entries_view(entries: Seq<(String, Lang)>) -> Seq<(Seq<char>, LangView)> {
    Seq::new(entries.len(), |i: int| (entries[i].0@, entries[i].1@))
}

impl View for Settings {
    type V = Seq<(Seq<char>, LangView)>;

    closed spec fn view(&self) -> Seq<(Seq<char>, LangView)> {
        entries_view(self.entries@)
    }
}

impl Settings {
    #[verifier::type_invariant]
    spec fn unique_keys(&self) -> bool {
        keys_distinct(self@)
    }

    /// A table without entries.
    pub fn new() -> (res: Settings)
        ensures
            res@ == Seq::<(Seq<char>, LangView)>::empty(),
    {
        let res = Settings { entries: Vec::new() };
        assert(res@ =~= Seq::<(Seq<char>, LangView)>::empty());
        res
    }

    /// Number of entries.
    pub fn len(&self) -> (n: usize)
        ensures
            n == self@.len(),
    {
        self.entries.len()
    }

    /// The entries in table order, each a key with its descriptor.
    pub fn entries(&self) -> (res: &Vec<(String, Lang)>)
        ensures
            entries_view(res@) == self@,
    {
        &self.entries
    }

    /// Position of the entry for `key`.
    fn find(&self, key: &str) -> (res: Option<usize>)
        ensures
            match res {
                Some(i) => position_of(self@, key@) == Some(i as int),
                None => position_of(self@, key@) is None,
            },
    {
        let wanted = key.to_owned();
        let mut i: usize = 0;
        while i < self.entries.len()
            invariant
                i <= self.entries.len(),
                wanted@ == key@,
                forall|j: int| 0 <= j < i ==> (#[trigger] self@[j]).0 != key@,
            decreases self.entries.len() - i,
        {
            if self.entries[i].0 == wanted {
                proof {
                    use_type_invariant(self);
                    lemma_position_of(self@, key@);
                    let p = position_of(self@, key@)->0;
                    assert(self@[i as int].0 == key@);
                    assert(self@[p].0 == key@);
                }
                return Some(i);
            }
            i += 1;
        }
        proof {
            lemma_position_of(self@, key@);
        }
        None
    }

    /// The descriptor stored under `key`.
    pub fn get(&self, key: &str) -> (res: Option<&Lang>)
        ensures
            keys_distinct(self@),
            match res {
                Some(l) => position_of(self@, key@) matches Some(i) && l@ == self@[i].1,
                None => position_of(self@, key@) is None,
            },
    {
        proof {
            use_type_invariant(self);
            lemma_position_of(self@, key@);
        }
        match self.find(key) {
            Some(i) => Some(&self.entries[i].1),
            None => None,
        }
    }

    /// Binds `key` to `lang`, replacing the descriptor of an entry that exists.
    pub fn insert(&mut self, key: String, lang: Lang)
        ensures
            final(self)@ == with_entry(old(self)@, key@, lang@),
            keys_distinct(final(self)@),
    {
        proof {
            use_type_invariant(&*self);
            lemma_position_of(self@, key@);
        }
        let ghost before = self@;
        let found = self.find(key.as_str());
        let mut taken = Settings::new();
        std::mem::swap(self, &mut taken);
        let mut entries = taken.entries;
        match found {
            Some(i) => {
                entries.set(i, (key, lang));
            },
            None => {
                entries.push((key, lang));
            },
        }
        let ghost after = Settings { entries }@;
        proof {
            match found {
                Some(i) => {
                    assert(after =~= before.update(i as int, (key@, lang@)));
                },
                None => {
                    assert(after =~= before.push((key@, lang@)));
                },
            }
            assert(keys_distinct(after));
        }
        *self = Settings { entries };
    }
}

impl Default for Settings {
    /// The built-in configuration.
    fn default() -> (res: Settings)
        ensures
            res@ == default_entries(),
    {
        let python = Lang::new("black", vec!["py", "python", "python3"], None, Some("py"));
        let rust = Lang::new("rustfmt", vec!["rs", "rust"], None, Some("rs"));
        let js = Lang::new(
            "prettier",
            vec!["js", "ts", "javascript", "typescript"],
            Some(vec!["--write"]),
            Some("js"),
        );
        proof {
            reveal_strlit("python");
            reveal_strlit("rust");
            reveal_strlit("js");
            assert(python@.name =~= seq!["py"@, "python"@, "python3"@]);
            assert(rust@.name =~= seq!["rs"@, "rust"@]);
            assert(js@.name =~= seq!["js"@, "ts"@, "javascript"@, "typescript"@]);
            assert(js@.args->0 =~= seq!["--write"@]);
        }
        let mut res = Settings::new();
        res.insert("python".to_owned(), python);
        proof {
            assert(res@ =~= seq![("python"@, python@)]);
            assert("python"@.len() != "rust"@.len());
            lemma_position_of(res@, "rust"@);
        }
        res.insert("rust".to_owned(), rust);
        proof {
            assert(res@ =~= seq![("python"@, python@), ("rust"@, rust@)]);
            assert("python"@.len() != "js"@.len());
            assert("rust"@.len() != "js"@.len());
            lemma_position_of(res@, "js"@);
        }
        res.insert("js".to_owned(), js);
        proof {
            assert(res@ =~= default_entries());
        }
        res
    }
}

} // verus!
