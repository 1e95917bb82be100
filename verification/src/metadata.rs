//! The artifact metadata document: entry point, argument templates,
//! platform rules, library entries and download descriptors for one
//! resolvable version.
use vstd::prelude::*;
use vstd::seq_lib::*;
use crate::catalog::VersionType;
use crate::listmap::{os_assoc_idx, lemma_os_assoc_idx, os_assoc_get, str_assoc_idx, str_assoc_has,
    str_assoc_val, str_assoc_get};
use crate::meta::JavaClassName;
use crate::platform::{Os, OsName, Platform};
use crate::strutil::{chars_of, spec_split, split_on, string_of};

verus! {

/// One object of the asset index: a content digest and a size.
#[derive(Debug)]
pub struct AssetObject {
    pub hash: String,
    pub size: usize,
}

/// The asset index: logical asset names mapped to their objects.
#[derive(Debug)]
pub struct AssetIndex {
    pub objects: Vec<(String, AssetObject)>,
}

/// What a rule does when its predicates hold.
#[derive(Debug, Clone, Copy, PartialEq, Eq, Structural)]
pub enum RuleActionType {
    Allow,
    Disallow,
}

/// A platform gate on a library or argument: an action plus optional
/// OS and feature predicates.
#[derive(Debug)]
pub struct Rule {
    pub action: RuleActionType,
    pub features: Option<Vec<(String, bool)>>,
    pub os: Option<Os>,
}

impl Rule {
    /// Whether the rule's predicates hold on this platform. A feature
    /// predicate is never satisfiable: no feature flag is ever on, so
    /// declaring one makes the rule never match.
    pub open spec fn spec_matches(&self, p: Platform) -> bool {
        (self.os is None || self.os->0.spec_matches(p)) && self.features is None
    }

    /// Evaluates the rule's predicates against the platform facts.
    pub fn matches(&self, p: &Platform) -> (r: bool)
        ensures
            r == self.spec_matches(*p),
    {
        (match &self.os {
            None => true,
            Some(os) => os.matches(p),
        }) && self.features.is_none()
    }

    /// Whether the rule, on its own, allows this platform.
    pub open spec fn spec_allowed(&self, p: Platform) -> bool {
        match self.action {
            RuleActionType::Allow => self.spec_matches(p),
            RuleActionType::Disallow => !self.spec_matches(p),
        }
    }

    /// An allow rule allows when it matches; a disallow rule allows
    /// when it does not match.
    pub fn is_allowed(&self, p: &Platform) -> (r: bool)
        ensures
            r == self.spec_allowed(*p),
    {
        let matched = self.matches(p);
        match self.action {
            RuleActionType::Allow => matched,
            RuleActionType::Disallow => !matched,
        }
    }
}

/// A rule set is satisfied when every rule allows the platform.
pub open spec fn spec_rules_allowed(rules: Seq<Rule>, p: Platform) -> bool {
    forall|i: int| 0 <= i < rules.len() ==> (#[trigger] rules[i]).spec_allowed(p)
}

/// Evaluates a whole rule set.
pub fn rules_allowed(rules: &Vec<Rule>, p: &Platform) -> (r: bool)
    ensures
        r == spec_rules_allowed(rules@, *p),
{
    let n = rules.len();
    for i in 0..n
        invariant
            n == rules@.len(),
            forall|j: int| 0 <= j < i ==> (#[trigger] rules@[j]).spec_allowed(*p),
    {
        if !rules[i].is_allowed(p) {
            return false;
        }
    }
    true
}

/// A download descriptor: where a file comes from, where it is stored
/// relative to its root, and how it is checked.
#[derive(Debug)]
pub struct Download {
    pub path: Option<String>,
    pub url: String,
    pub sha1: Option<String>,
    pub size: Option<i32>,
}

impl Clone for Download {
    /// An exact copy.
    fn clone(&self) -> (r: Self)
        ensures
            r == *self,
    {
        Download {
            path: match &self.path {
                Some(p) => Some(p.clone()),
                None => None,
            },
            url: self.url.clone(),
            sha1: match &self.sha1 {
                Some(s) => Some(s.clone()),
                None => None,
            },
            size: self.size,
        }
    }
}

/// The download descriptors of the main binary.
#[derive(Debug)]
pub struct Downloads {
    pub client: Download,
}

/// The value of a gated argument: one token or several.
#[derive(Debug)]
pub enum ArgumentValue {
    Value(String),
    Values(Vec<String>),
}

/// One entry of a structured argument template: either a plain token
/// or tokens gated behind rules.
#[derive(Debug)]
pub enum Argument {
    Arg(String),
    Rule { rules: Vec<Rule>, value: ArgumentValue },
}

impl Argument {
    /// The tokens this entry contributes on the given platform.
    pub open spec fn spec_raw(self, p: Platform) -> Seq<Seq<char>> {
        match self {
            Argument::Arg(arg) => seq![arg@],
            Argument::Rule { rules, value } => {
                if spec_rules_allowed(rules@, p) {
                    match value {
                        ArgumentValue::Value(v) => seq![v@],
                        ArgumentValue::Values(vs) => vs.deep_view(),
                    }
                } else {
                    Seq::empty()
                }
            },
        }
    }

    /// Flattens the entry: a plain token passes through; a gated entry
    /// contributes its tokens only when all its rules allow.
    pub fn into_raw(self, p: &Platform) -> (r: Vec<String>)
        ensures
            r.deep_view() == self.spec_raw(*p),
    {
        let ghost orig = self;
        match self {
            Argument::Arg(arg) => {
                let r = vec![arg];
                proof {
                    assert(r.deep_view() =~= orig.spec_raw(*p));
                }
                r
            },
            Argument::Rule { rules, value } => {
                if rules_allowed(&rules, p) {
                    match value {
                        ArgumentValue::Value(v) => {
                            let r = vec![v];
                            proof {
                                assert(r.deep_view() =~= orig.spec_raw(*p));
                            }
                            r
                        },
                        ArgumentValue::Values(vs) => vs,
                    }
                } else {
                    let r: Vec<String> = Vec::new();
                    proof {
                        assert(r.deep_view() =~= orig.spec_raw(*p));
                    }
                    r
                }
            },
        }
    }
}

/// The tokens a whole argument list contributes, in order.
pub open spec fn spec_flat_raw(args: Seq<Argument>, p: Platform) -> Seq<Seq<char>>
    decreases args.len(),
{
    if args.len() == 0 {
        Seq::empty()
    } else {
        args[0].spec_raw(p) + spec_flat_raw(args.drop_first(), p)
    }
}

/// Flattens an argument list on the given platform.
pub fn flatten_args(args: Vec<Argument>, p: &Platform) -> (r: Vec<String>)
    ensures
        r.deep_view() == spec_flat_raw(args@, *p),
{
    let ghost orig = args@;
    let mut args = args;
    let mut r: Vec<String> = Vec::new();
    while args.len() > 0
        invariant
            spec_flat_raw(orig, *p) =~~= r.deep_view() + spec_flat_raw(args@, *p),
        decreases args@.len(),
    {
        let ghost before = args@;
        let first = args.remove(0);
        proof {
            assert(args@ =~= before.drop_first());
        }
        let mut toks = first.into_raw(p);
        let n = toks.len();
        for k in 0..n
            invariant
                n == toks@.len(),
                toks.deep_view() == before[0].spec_raw(*p),
                spec_flat_raw(orig, *p) =~~= r.deep_view() + toks.deep_view().skip(k as int)
                    + spec_flat_raw(args@, *p),
                k <= toks@.len(),
        {
            let ghost rd = r.deep_view();
            r.push(toks[k].clone());
            proof {
                assert(toks@[k as int]@ == toks.deep_view()[k as int]);
                assert(r.deep_view() =~~= rd + seq![toks.deep_view()[k as int]]);
                assert(toks.deep_view().skip(k as int) =~~= seq![toks.deep_view()[k as int]]
                    + toks.deep_view().skip(k + 1));
            }
        }
        proof {
            assert(toks.deep_view().skip(toks@.len() as int) =~~= Seq::<Seq<char>>::empty());
        }
    }
    proof {
        assert(spec_flat_raw(args@, *p) =~~= Seq::<Seq<char>>::empty());
    }
    r
}

/// The argument template of a version: either the structured form
/// with game and runtime halves, or the legacy flat string.
#[derive(Debug)]
pub enum Arguments {
    /// The structured template.
    Args { game: Vec<Argument>, jvm: Vec<Argument> },
    /// The legacy flat game-argument string.
    MinecraftArgs(String),
}

impl Arguments {
    /// Whether this is the structured form.
    pub open spec fn is_modern(&self) -> bool {
        self is Args
    }

    /// The runtime-side tokens this template flattens to.
    pub open spec fn spec_jvm_raw(self, p: Platform) -> Seq<Seq<char>> {
        match self {
            Arguments::Args { game, jvm } => spec_flat_raw(jvm@, p),
            Arguments::MinecraftArgs(_) => seq![
                "-Djava.library.path=${natives_directory}"@,
                "-cp"@,
                "${classpath}"@,
            ],
        }
    }

    /// The game-side tokens this template flattens to.
    pub open spec fn spec_game_raw(self, p: Platform) -> Seq<Seq<char>> {
        match self {
            Arguments::Args { game, jvm } => spec_flat_raw(game@, p),
            Arguments::MinecraftArgs(args) => spec_split(args@, seq![' ']),
        }
    }

    /// Concatenates two templates of the same form, field by field.
    /// Mixing the structured and the legacy form is excluded by
    /// contract: there is no meaningful combination of the two.
    pub fn concat(self, other: Self) -> (r: Self)
        requires
            self.is_modern() == other.is_modern(),
        ensures
            self matches Arguments::Args { game: g1, jvm: j1 } ==> (other matches Arguments::Args {
                game: g2,
                jvm: j2,
            } ==> (r matches Arguments::Args { game: g3, jvm: j3 } && g3@ == g1@ + g2@ && j3@ == j1@
                + j2@)),
            self matches Arguments::MinecraftArgs(s1) ==> (other matches Arguments::MinecraftArgs(
                s2,
            ) ==> (r matches Arguments::MinecraftArgs(s3) && s3@ == s1@ + seq![' '] + s2@)),
    {
        match (self, other) {
            (Arguments::Args { mut game, jvm }, Arguments::Args { game: game2, jvm: jvm2 }) => {
                let mut game2 = game2;
                let mut jvm = jvm;
                let mut jvm2 = jvm2;
                game.append(&mut game2);
                jvm.append(&mut jvm2);
                Arguments::Args { game, jvm }
            },
            (Arguments::MinecraftArgs(args1), Arguments::MinecraftArgs(args2)) => {
                let mut joined = args1;
                joined.append(" ");
                joined.append(args2.as_str());
                proof {
                    reveal_strlit(" ");
                    assert(" "@ =~= seq![' ']);
                }
                Arguments::MinecraftArgs(joined)
            },
            _ => {
                proof {
                    assert(false);
                }
                unreached()
            },
        }
    }

    /// The flattened runtime-side and game-side token lists. The
    /// legacy form is tokenized on single spaces and paired with the
    /// fixed two-flag runtime list (native library path, classpath).
    pub fn into_raw(self, p: &Platform) -> (r: (Vec<String>, Vec<String>))
        ensures
            r.0.deep_view() == self.spec_jvm_raw(*p),
            r.1.deep_view() == self.spec_game_raw(*p),
    {
        match self {
            Arguments::Args { game, jvm } => {
                let jvm_raw = flatten_args(jvm, p);
                let game_raw = flatten_args(game, p);
                (jvm_raw, game_raw)
            },
            Arguments::MinecraftArgs(args) => {
                let chars = chars_of(args.as_str());
                let seps: Vec<char> = vec![' '];
                proof {
                    assert(seps@ =~= seq![' ']);
                }
                let pieces = split_on(&chars, &seps);
                let mut game: Vec<String> = Vec::new();
                let n = pieces.len();
                for i in 0..n
                    invariant
                        n == pieces@.len(),
                        pieces.deep_view() == spec_split(args@, seq![' ']),
                        game.deep_view() == pieces.deep_view().take(i as int),
                {
                    let ghost gd = game.deep_view();
                    game.push(string_of(&pieces[i]));
                    proof {
                        assert(pieces@[i as int]@ == pieces.deep_view()[i as int]);
                        assert(game.deep_view() =~~= gd + seq![pieces.deep_view()[i as int]]);
                        assert(game.deep_view() =~~= pieces.deep_view().take(i + 1));
                    }
                }
                proof {
                    assert(pieces.deep_view().take(n as int) =~~= pieces.deep_view());
                }
                let jvm: Vec<String> = vec![
                    String::from_str("-Djava.library.path=${natives_directory}"),
                    String::from_str("-cp"),
                    String::from_str("${classpath}"),
                ];
                proof {
                    assert(jvm.deep_view() =~~= seq![
                        "-Djava.library.path=${natives_directory}"@,
                        "-cp"@,
                        "${classpath}"@,
                    ]);
                }
                (jvm, game)
            },
        }
    }
}

/// The runtime requirement of a version.
#[derive(Debug, Clone)]
pub struct JavaVersion {
    pub component: String,
    pub major_version: u16,
}

/// A library's download descriptors: the primary artifact and the
/// per-classifier native artifacts.
#[derive(Debug)]
pub struct LibraryDownload {
    pub artifact: Option<Download>,
    pub classifiers: Option<Vec<(String, Download)>>,
}

/// Paths excluded when a native archive would be unpacked.
#[derive(Debug)]
pub struct Extract {
    pub exclude: Option<Vec<String>>,
}

/// One library entry of the metadata document.
#[derive(Debug)]
pub struct Library {
    pub name: JavaClassName,
    pub downloads: LibraryDownload,
    pub extract: Option<Extract>,
    pub natives: Option<Vec<(OsName, String)>>,
    pub rules: Option<Vec<Rule>>,
}

impl Library {
    /// A library is allowed when it has no rules, or all its rules
    /// allow the platform.
    pub open spec fn spec_allowed(&self, p: Platform) -> bool {
        self.rules is None || spec_rules_allowed(self.rules->0@, p)
    }

    /// Evaluates the library's rule set.
    pub fn is_allowed(&self, p: &Platform) -> (r: bool)
        ensures
            r == self.spec_allowed(*p),
    {
        match &self.rules {
            None => true,
            Some(rules) => rules_allowed(rules, p),
        }
    }

    /// The classifier key of the native artifact for this platform,
    /// if the library names one.
    pub open spec fn spec_native_key(&self, p: Platform) -> Option<Seq<char>> {
        if self.natives is Some && os_assoc_idx(self.natives->0@, p.os) >= 0 {
            Some(self.natives->0@[os_assoc_idx(self.natives->0@, p.os)].1@)
        } else {
            None
        }
    }

    /// Whether this library resolves to a native download here.
    pub open spec fn spec_has_native(&self, p: Platform) -> bool {
        self.downloads.classifiers is Some && self.spec_native_key(p) is Some
    }

    /// The resolved native download descriptor for this platform.
    pub open spec fn spec_native(&self, p: Platform) -> Download {
        str_assoc_val(self.downloads.classifiers->0@, self.spec_native_key(p)->0)
    }

    /// Resolves the per-OS native artifact: the classifier named by
    /// the platform's entry in the natives table, if both exist.
    pub fn native_from_platform(&self, p: &Platform) -> (r: Option<&Download>)
        requires
            self.spec_has_native(*p) ==> str_assoc_has(
                self.downloads.classifiers->0@,
                self.spec_native_key(*p)->0,
            ),
        ensures
            r is Some <==> self.spec_has_native(*p),
            r is Some ==> r->0 == &self.spec_native(*p),
    {
        let natives = match &self.natives {
            Some(n) => n,
            None => {
                return None;
            },
        };
        let classifiers = match &self.downloads.classifiers {
            Some(c) => c,
            None => {
                return None;
            },
        };
        let key = match os_assoc_get(natives, p.os) {
            Some(k) => k,
            None => {
                return None;
            },
        };
        let d = str_assoc_get(classifiers, key.as_str());
        match d {
            Some(d) => Some(d),
            None => {
                proof {
                    assert(false);
                }
                None
            },
        }
    }
}

/// The full metadata document of one version.
#[derive(Debug)]
pub struct Client {
    pub arguments: Arguments,
    pub libraries: Vec<Library>,
    pub java_version: Option<JavaVersion>,
    pub main_class: String,
    pub downloads: Downloads,
    pub assets: String,
    pub asset_index: Download,
    pub id: String,
    pub release_time: String,
    pub kind: VersionType,
}

impl Client {
    /// The libraries whose rules are satisfied on this platform, in
    /// document order.
    pub fn libraries(&self, p: &Platform) -> (r: Vec<&Library>)
        ensures
            r@.map_values(|l: &Library| *l) == self.libraries@.filter(
                |l: Library| l.spec_allowed(*p),
            ),
    {
        let ghost pred = |l: Library| l.spec_allowed(*p);
        let mut r: Vec<&Library> = Vec::new();
        let n = self.libraries.len();
        proof {
            reveal(Seq::filter);
            assert(self.libraries@.take(0) =~= Seq::<Library>::empty());
        }
        for i in 0..n
            invariant
                n == self.libraries@.len(),
                pred == (|l: Library| l.spec_allowed(*p)),
                r@.map_values(|l: &Library| *l) == self.libraries@.take(i as int).filter(pred),
        {
            let ghost prefix = self.libraries@.take(i as int);
            proof {
                reveal(Seq::filter);
                assert(self.libraries@.take(i + 1).drop_last() =~= prefix);
                assert(self.libraries@.take(i + 1).last() == self.libraries@[i as int]);
            }
            if self.libraries[i].is_allowed(p) {
                r.push(&self.libraries[i]);
                proof {
                    assert(r@.map_values(|l: &Library| *l) =~= self.libraries@.take(i + 1).filter(
                        pred,
                    ));
                }
            } else {
                proof {
                    assert(r@.map_values(|l: &Library| *l) =~= self.libraries@.take(i + 1).filter(
                        pred,
                    ));
                }
            }
        }
        proof {
            assert(self.libraries@.take(n as int) =~= self.libraries@);
        }
        r
    }
}

} // verus!
