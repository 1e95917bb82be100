//! The launch composer: `${token}` placeholder expansion over the
//! per-installation configuration, version-era argument quirks, the
//! classpath, and the fully expanded argument vector.
use vstd::prelude::*;
use vstd::string::StringExecFns;
use crate::auth::PlayerProfile;
use crate::catalog::VersionType;
use crate::config::Config;
use crate::installations::Installation;
use crate::listmap::str_assoc_has;
use crate::metadata::{Client, Library};
use crate::platform::Platform;
use crate::strutil::{chars_of, is_word_char, push_chars, string_of, word_char};

verus! {

/// The instant an RFC 3339 date-and-time string denotes, in whole
/// seconds since the epoch; `None` when the string does not parse.
pub uninterp spec fn rfc3339_epoch(s: Seq<char>) -> Option<i64>;

/// Relies on chrono's `DateTime::parse_from_rfc3339` and `timestamp`:
/// parsing an RFC 3339 string and taking its epoch seconds depends on
/// the string alone.
#[verifier::external_body]
fn parse_rfc3339_epoch(s: &str) -> (r: Option<i64>)
    ensures
        r == rfc3339_epoch(s@),
{
    match chrono::DateTime::parse_from_rfc3339(s) {
        Ok(d) => Some(d.timestamp()),
        Err(_) => None,
    }
}

/// The length of the maximal word-character run starting at `i`.
pub open spec fn word_run_len(s: Seq<char>, i: int) -> int
    decreases s.len() - i,
{
    if 0 <= i < s.len() && is_word_char(s[i]) {
        1 + word_run_len(s, i + 1)
    } else {
        0
    }
}

/// The run length is non-negative, in range, all word characters, and
/// maximal.
pub proof fn lemma_word_run(s: Seq<char>, i: int)
    requires
        0 <= i <= s.len(),
    ensures
        0 <= word_run_len(s, i),
        i + word_run_len(s, i) <= s.len(),
        forall|j: int| i <= j < i + word_run_len(s, i) ==> is_word_char(#[trigger] s[j]),
        i + word_run_len(s, i) < s.len() ==> !is_word_char(s[i + word_run_len(s, i)]),
    decreases s.len() - i,
{
    if i < s.len() && is_word_char(s[i]) {
        lemma_word_run(s, i + 1);
    }
}

/// Whether a `${name}` placeholder starts at position `i`: the two
/// opening characters, at least one word character, and the closing
/// brace.
pub open spec fn token_at(s: Seq<char>, i: int) -> bool {
    &&& 0 <= i
    &&& i + 1 < s.len()
    &&& s[i] == '$'
    &&& s[i + 1] == '{'
    &&& word_run_len(s, i + 2) > 0
    &&& i + 2 + word_run_len(s, i + 2) < s.len()
    &&& s[i + 2 + word_run_len(s, i + 2)] == '}'
}

/// The placeholder's name.
pub open spec fn token_name(s: Seq<char>, i: int) -> Seq<char> {
    s.subrange(i + 2, i + 2 + word_run_len(s, i + 2))
}

/// The position right after the placeholder's closing brace.
pub open spec fn token_end(s: Seq<char>, i: int) -> int {
    i + 2 + word_run_len(s, i + 2) + 1
}

/// What a placeholder expands to: the environment's value, or the
/// empty string when the token is unresolved — never a failure.
pub open spec fn resolve(env: Map<Seq<char>, Seq<char>>, name: Seq<char>) -> Seq<char> {
    if env.contains_key(name) {
        env[name]
    } else {
        Seq::empty()
    }
}

/// The template from position `i` on, with every placeholder
/// replaced by its resolution; characters that form no placeholder
/// pass through unchanged.
pub open spec fn expand_from(s: Seq<char>, i: int, env: Map<Seq<char>, Seq<char>>) -> Seq<char>
    decreases s.len() - i,
    when 0 <= i
    via expand_from_decreases
{
    if i >= s.len() {
        Seq::empty()
    } else if token_at(s, i) {
        resolve(env, token_name(s, i)) + expand_from(s, token_end(s, i), env)
    } else {
        seq![s[i]] + expand_from(s, i + 1, env)
    }
}

#[via_fn]
proof fn expand_from_decreases(s: Seq<char>, i: int, env: Map<Seq<char>, Seq<char>>) {
    if 0 <= i < s.len() && token_at(s, i) {
        lemma_word_run(s, i + 2);
    }
}

/// The whole template expanded.
pub open spec fn spec_expand(s: Seq<char>, env: Map<Seq<char>, Seq<char>>) -> Seq<char> {
    expand_from(s, 0, env)
}

/// Expands every `${token}` placeholder of the template against the
/// environment; an unresolved token expands to the empty string.
pub fn expand(template: &str, env: &Config) -> (r: String)
    requires
        env.wf(),
    ensures
        r@ == spec_expand(template@, env@),
{
    let s = chars_of(template);
    let n = s.len();
    let mut out: Vec<char> = Vec::new();
    let mut i: usize = 0;
    while i < n
        invariant
            n == s@.len(),
            s@ == template@,
            env.wf(),
            i <= n,
            spec_expand(template@, env@) == out@ + expand_from(s@, i as int, env@),
        decreases n - i,
    {
        let mut consumed = false;
        if s[i] == '$' && i + 1 < n {
            if s[i + 1] == '{' {
                let mut j = i + 2;
                while j < n && word_char(s[j])
                    invariant
                        i + 2 <= j <= n,
                        n == s@.len(),
                        s@ == template@,
                        forall|k: int| i + 2 <= k < j ==> is_word_char(#[trigger] s@[k]),
                    decreases n - j,
                {
                    j = j + 1;
                }
                proof {
                    if i + 2 <= s@.len() {
                        lemma_word_run(s@, i + 2);
                        if (j as int) < i + 2 + word_run_len(s@, i + 2) {
                            assert(is_word_char(s@[j as int]));
                            assert(false);
                        }
                        if (j as int) > i + 2 + word_run_len(s@, i + 2) {
                            assert(!is_word_char(s@[i + 2 + word_run_len(s@, i + 2)]));
                            assert(false);
                        }
                        assert(j as int == i + 2 + word_run_len(s@, i + 2));
                    }
                }
                if j > i + 2 && j < n && s[j] == '}' {
                    proof {
                        assert(token_at(s@, i as int));
                    }
                    let mut name: Vec<char> = Vec::new();
                    let mut k = i + 2;
                    while k < j
                        invariant
                            i + 2 <= k <= j <= n,
                            n == s@.len(),
                            name@ == s@.subrange(i + 2, k as int),
                        decreases j - k,
                    {
                        name.push(s[k]);
                        proof {
                            assert(name@ =~= s@.subrange(i + 2, k + 1));
                        }
                        k = k + 1;
                    }
                    proof {
                        assert(name@ =~= token_name(s@, i as int));
                    }
                    let name_str = string_of(&name);
                    match env.get(name_str.as_str()) {
                        Some(v) => {
                            let vchars = chars_of(v);
                            push_chars(&mut out, &vchars);
                        },
                        None => {
                        },
                    }
                    proof {
                        assert(out@ + expand_from(s@, j + 1, env@) =~= spec_expand(
                            template@,
                            env@,
                        ));
                    }
                    i = j + 1;
                    consumed = true;
                }
            }
        }
        if !consumed {
            proof {
                assert(!token_at(s@, i as int));
            }
            out.push(s[i]);
            proof {
                assert(out@ + expand_from(s@, i + 1, env@) =~= spec_expand(template@, env@));
            }
            i = i + 1;
        }
    }
    proof {
        assert(expand_from(s@, i as int, env@) =~= Seq::<char>::empty());
        assert(out@ =~= spec_expand(template@, env@));
    }
    string_of(&out)
}

/// Expands every template of a list.
pub fn expand_all(args: &Vec<String>, env: &Config) -> (r: Vec<String>)
    requires
        env.wf(),
    ensures
        r.deep_view() == args.deep_view().map_values(
            |t: Seq<char>| spec_expand(t, env@),
        ),
{
    let mut r: Vec<String> = Vec::new();
    let n = args.len();
    proof {
        assert(r.deep_view() =~~= args.deep_view().take(0).map_values(
            |t: Seq<char>| spec_expand(t, env@),
        ));
    }
    for i in 0..n
        invariant
            n == args@.len(),
            env.wf(),
            r.deep_view() == args.deep_view().take(i as int).map_values(
                |t: Seq<char>| spec_expand(t, env@),
            ),
    {
        let ghost rd = r.deep_view();
        r.push(expand(args[i].as_str(), env));
        proof {
            assert(args@[i as int]@ == args.deep_view()[i as int]);
            assert(r.deep_view() =~~= rd + seq![spec_expand(args.deep_view()[i as int], env@)]);
            assert(r.deep_view() =~~= args.deep_view().take(i + 1).map_values(
                |t: Seq<char>| spec_expand(t, env@),
            ));
        }
    }
    proof {
        assert(args.deep_view().take(n as int) =~~= args.deep_view());
        assert(r.deep_view() =~~= args.deep_view().map_values(
            |t: Seq<char>| spec_expand(t, env@),
        ));
    }
    r
}

/// The version-era argument quirks: the old eras get an archive proxy
/// with a port chosen by sub-era, plus a sorting compatibility flag;
/// releases up to the historical threshold get the later proxy port;
/// anything newer gets nothing. `None` stands for a release time that
/// does not parse, which the caller surfaces.
pub open spec fn spec_quirks(
    kind: Option<VersionType>,
    version: Seq<char>,
    release_epoch: Option<i64>,
    threshold_epoch: Option<i64>,
) -> Option<Seq<Seq<char>>> {
    if kind == Some(VersionType::OldBeta) || kind == Some(VersionType::OldAlpha) {
        Some(
            seq![
                "-Dhttp.proxyHost=betacraft.uk"@,
                if version.len() >= 3 && version.take(3) == "c0."@ {
                    "-Dhttp.proxyPort=11701"@
                } else if kind == Some(VersionType::OldAlpha) {
                    "-Dhttp.proxyPort=11702"@
                } else {
                    "-Dhttp.proxyPort=11705"@
                },
                "-Djava.util.Arrays.useLegacyMergeSort=true"@,
            ],
        )
    } else {
        match release_epoch {
            None => None,
            Some(re) => Some(
                match threshold_epoch {
                    Some(te) => if re <= te {
                        seq!["-Dhttp.proxyHost=betacraft.uk"@, "-Dhttp.proxyPort=11707"@]
                    } else {
                        Seq::empty()
                    },
                    None => Seq::empty(),
                },
            ),
        }
    }
}

/// Computes the era quirks for an installation's classification,
/// version id and release time.
pub fn quirk_arguments(kind: Option<VersionType>, version: &str, release_time: &str) -> (r: Option<
    Vec<String>,
>)
    ensures
        r is Some <==> spec_quirks(
            kind,
            version@,
            rfc3339_epoch(release_time@),
            rfc3339_epoch("2013-04-25T15:45:00+00:00"@),
        ) is Some,
        r matches Some(v) ==> v.deep_view() == spec_quirks(
            kind,
            version@,
            rfc3339_epoch(release_time@),
            rfc3339_epoch("2013-04-25T15:45:00+00:00"@),
        )->0,
{
    let old_era = match kind {
        Some(VersionType::OldBeta) => true,
        Some(VersionType::OldAlpha) => true,
        _ => false,
    };
    if old_era {
        let mut args: Vec<String> = Vec::new();
        args.push(String::from_str("-Dhttp.proxyHost=betacraft.uk"));
        if crate::strutil::starts_with(version, "c0.") {
            proof {
                reveal_strlit("c0.");
            }
            args.push(String::from_str("-Dhttp.proxyPort=11701"));
        } else if matches!(kind, Some(VersionType::OldAlpha)) {
            proof {
                reveal_strlit("c0.");
            }
            args.push(String::from_str("-Dhttp.proxyPort=11702"));
        } else {
            proof {
                reveal_strlit("c0.");
            }
            args.push(String::from_str("-Dhttp.proxyPort=11705"));
        }
        args.push(String::from_str("-Djava.util.Arrays.useLegacyMergeSort=true"));
        proof {
            assert(args.deep_view() =~~= spec_quirks(
                kind,
                version@,
                rfc3339_epoch(release_time@),
                rfc3339_epoch("2013-04-25T15:45:00+00:00"@),
            )->0);
        }
        Some(args)
    } else {
        let release_epoch = match parse_rfc3339_epoch(release_time) {
            Some(re) => re,
            None => {
                return None;
            },
        };
        let threshold_epoch = parse_rfc3339_epoch("2013-04-25T15:45:00+00:00");
        let mut args: Vec<String> = Vec::new();
        match threshold_epoch {
            Some(te) => {
                if release_epoch <= te {
                    args.push(String::from_str("-Dhttp.proxyHost=betacraft.uk"));
                    args.push(String::from_str("-Dhttp.proxyPort=11707"));
                }
            },
            None => {
            },
        }
        proof {
            assert(args.deep_view() =~~= spec_quirks(
                kind,
                version@,
                rfc3339_epoch(release_time@),
                rfc3339_epoch("2013-04-25T15:45:00+00:00"@),
            )->0);
        }
        Some(args)
    }
}

/// Parts joined by a separator; the empty list joins to nothing.
pub open spec fn join_with(parts: Seq<Seq<char>>, sep: Seq<char>) -> Seq<char>
    decreases parts.len(),
{
    if parts.len() == 0 {
        Seq::empty()
    } else if parts.len() == 1 {
        parts[0]
    } else {
        join_with(parts.drop_last(), sep) + sep + parts.last()
    }
}

/// Joins strings with a separator.
pub fn join_strings(parts: &Vec<String>, sep: &str) -> (r: String)
    ensures
        r@ == join_with(parts.deep_view(), sep@),
{
    let mut out: Vec<char> = Vec::new();
    let sep_chars = chars_of(sep);
    let n = parts.len();
    proof {
        assert(parts.deep_view().take(0) =~~= Seq::<Seq<char>>::empty());
    }
    for i in 0..n
        invariant
            n == parts@.len(),
            sep_chars@ == sep@,
            out@ == join_with(parts.deep_view().take(i as int), sep@),
    {
        if i > 0 {
            push_chars(&mut out, &sep_chars);
        }
        let pc = chars_of(parts[i].as_str());
        push_chars(&mut out, &pc);
        proof {
            assert(parts.deep_view().take(i + 1).drop_last() =~~= parts.deep_view().take(i as int));
            assert(parts.deep_view().take(i + 1).last() == parts.deep_view()[i as int]);
            assert(parts@[i as int]@ == parts.deep_view()[i as int]);
            assert(out@ =~= join_with(parts.deep_view().take(i + 1), sep@));
        }
    }
    proof {
        assert(parts.deep_view().take(n as int) =~~= parts.deep_view());
        assert(out@ =~= join_with(parts.deep_view(), sep@));
    }
    string_of(&out)
}

/// The classpath entries one library contributes: its resolved native
/// artifact's path, then its primary artifact's path, each under the
/// library root.
pub open spec fn lib_cp_entries(lib: Library, p: Platform, libs_dir: Seq<char>) -> Seq<Seq<char>> {
    (if lib.spec_has_native(p) {
        seq![libs_dir + seq!['/'] + lib.spec_native(p).path->0@]
    } else {
        Seq::empty()
    }) + (if lib.downloads.artifact is Some {
        seq![libs_dir + seq!['/'] + lib.downloads.artifact->0.path->0@]
    } else {
        Seq::empty()
    })
}

/// The classpath entries of all allowed libraries, in document order.
pub open spec fn spec_classpath_entries(libs: Seq<Library>, p: Platform, libs_dir: Seq<char>) -> Seq<
    Seq<char>,
>
    decreases libs.len(),
{
    if libs.len() == 0 {
        Seq::empty()
    } else {
        spec_classpath_entries(libs.drop_last(), p, libs_dir) + (if libs.last().spec_allowed(p) {
            lib_cp_entries(libs.last(), p, libs_dir)
        } else {
            Seq::empty()
        })
    }
}

/// A library whose classpath entries are well-formed: its resolved
/// downloads declare storage paths.
pub open spec fn lib_cp_ready(lib: Library, p: Platform) -> bool {
    &&& lib.spec_has_native(p) ==> str_assoc_has(
        lib.downloads.classifiers->0@,
        lib.spec_native_key(p)->0,
    ) && lib.spec_native(p).path is Some
    &&& lib.downloads.artifact is Some ==> lib.downloads.artifact->0.path is Some
}

impl Installation {
    /// The classpath: each allowed library's resolved paths (native
    /// artifact preferred first, then the primary artifact), then the
    /// main binary, joined with the platform's path-list separator.
    pub fn classpath(
        &self,
        client: &Client,
        p: &Platform,
        libs_dir: &str,
        installations_dir: &str,
        separator: &str,
    ) -> (r: String)
        requires
            forall|i: int|
                0 <= i < client.libraries@.len() ==> ((#[trigger] client.libraries@[i]).spec_allowed(
                    *p,
                ) ==> lib_cp_ready(client.libraries@[i], *p)),
        ensures
            r@ == join_with(
                spec_classpath_entries(client.libraries@, *p, libs_dir@) + seq![
                    installations_dir@ + seq!['/'] + self.name@ + seq!['/'] + "client.jar"@,
                ],
                separator@,
            ),
    {
        let mut entries: Vec<String> = Vec::new();
        let n = client.libraries.len();
        proof {
            assert(client.libraries@.take(0) =~= Seq::<Library>::empty());
            assert(entries.deep_view() =~~= spec_classpath_entries(
                client.libraries@.take(0),
                *p,
                libs_dir@,
            ));
        }
        for i in 0..n
            invariant
                n == client.libraries@.len(),
                forall|j: int|
                    0 <= j < n ==> ((#[trigger] client.libraries@[j]).spec_allowed(*p)
                        ==> lib_cp_ready(client.libraries@[j], *p)),
                entries.deep_view() == spec_classpath_entries(
                    client.libraries@.take(i as int),
                    *p,
                    libs_dir@,
                ),
        {
            proof {
                assert(client.libraries@.take(i + 1).drop_last() =~= client.libraries@.take(
                    i as int,
                ));
                assert(client.libraries@.take(i + 1).last() == client.libraries@[i as int]);
            }
            let lib = &client.libraries[i];
            if lib.is_allowed(p) {
                let ghost before = entries.deep_view();
                let mut pushed: usize = 0;
                match lib.native_from_platform(p) {
                    Some(native) => {
                        match &native.path {
                            Some(path) => {
                                entries.push(crate::strutil::path_join(libs_dir, path.as_str()));
                            },
                            None => {
                                proof {
                                    assert(false);
                                }
                            },
                        }
                    },
                    None => {
                    },
                }
                match &lib.downloads.artifact {
                    Some(artifact) => {
                        match &artifact.path {
                            Some(path) => {
                                entries.push(crate::strutil::path_join(libs_dir, path.as_str()));
                            },
                            None => {
                                proof {
                                    assert(false);
                                }
                            },
                        }
                    },
                    None => {
                    },
                }
                proof {
                    assert(entries.deep_view() =~~= before + lib_cp_entries(
                        client.libraries@[i as int],
                        *p,
                        libs_dir@,
                    ));
                    assert(entries.deep_view() =~~= spec_classpath_entries(
                        client.libraries@.take(i + 1),
                        *p,
                        libs_dir@,
                    ));
                }
            } else {
                proof {
                    assert(entries.deep_view() =~~= spec_classpath_entries(
                        client.libraries@.take(i + 1),
                        *p,
                        libs_dir@,
                    ));
                }
            }
        }
        proof {
            assert(client.libraries@.take(n as int) =~= client.libraries@);
        }
        let jar = self.client_jar_path(installations_dir);
        let ghost before_jar = entries.deep_view();
        entries.push(jar);
        proof {
            assert(entries.deep_view() =~~= spec_classpath_entries(client.libraries@, *p, libs_dir@)
                + seq![installations_dir@ + seq!['/'] + self.name@ + seq!['/'] + "client.jar"@]);
        }
        join_strings(&entries, separator)
    }
}

/// The expansion environment of a launch: the computed built-in
/// values, which shadow same-named keys of the per-installation
/// configuration; every other configuration key is kept.
pub open spec fn spec_launch_env(
    name: Seq<char>,
    version: Seq<char>,
    assets_index: Seq<char>,
    classpath: Seq<char>,
    installations_dir: Seq<char>,
    assets_dir: Seq<char>,
    uuid: Seq<char>,
    token: Seq<char>,
    player: Seq<char>,
    config: Map<Seq<char>, Seq<char>>,
) -> Map<Seq<char>, Seq<char>> {
    config.union_prefer_right(
        Map::<Seq<char>, Seq<char>>::empty().insert(
            "game_directory"@,
            installations_dir + seq!['/'] + name,
        ).insert("assets_root"@, assets_dir).insert("game_assets"@, assets_dir).insert(
            "assets_index_name"@,
            assets_index,
        ).insert("version_name"@, version).insert("classpath"@, classpath).insert(
            "natives_directory"@,
            installations_dir + seq!['/'] + name + "/.natives"@,
        ).insert("auth_uuid"@, uuid).insert("auth_access_token"@, token).insert(
            "auth_player_name"@,
            player,
        ).insert("clientid"@, "74909cec-49b6-4fee-aa60-1b2a57ef72e1"@).insert(
            "version_type"@,
            "SynthLauncher"@,
        ),
    )
}

impl Installation {
    /// Composes the final argument vector: the flattened runtime-side
    /// tokens with the era quirks appended, then the entry-point
    /// class, then the flattened game-side tokens, every `${token}`
    /// expanded against the built-ins-over-configuration environment.
    /// `None` stands for a release time that does not parse.
    pub fn generate_arguments(
        &self,
        client: Client,
        config: &Config,
        global: &Config,
        profile: Option<&PlayerProfile>,
        p: &Platform,
        installations_dir: &str,
        assets_dir: &str,
        libs_dir: &str,
        separator: &str,
    ) -> (r: Option<Vec<String>>)
        requires
            config.wf(),
            global.wf(),
            profile is None ==> global@.contains_key("auth_player_name"@),
            forall|i: int|
                0 <= i < client.libraries@.len() ==> ((#[trigger] client.libraries@[i]).spec_allowed(
                    *p,
                ) ==> lib_cp_ready(client.libraries@[i], *p)),
        ensures
            r is Some <==> spec_quirks(
                self.info.kind,
                self.info.version@,
                rfc3339_epoch(self.info.release_time@),
                rfc3339_epoch("2013-04-25T15:45:00+00:00"@),
            ) is Some,
            r matches Some(args) ==> args.deep_view() == ({
                let env = spec_launch_env(
                    self.name@,
                    self.info.version@,
                    client.assets@,
                    join_with(
                        spec_classpath_entries(client.libraries@, *p, libs_dir@) + seq![
                            installations_dir@ + seq!['/'] + self.name@ + seq!['/'] + "client.jar"@,
                        ],
                        separator@,
                    ),
                    installations_dir@,
                    assets_dir@,
                    match profile {
                        Some(pr) => pr.uuid@,
                        None => "0"@,
                    },
                    match profile {
                        Some(pr) => pr.access_token@,
                        None => "0"@,
                    },
                    match profile {
                        Some(pr) => pr.username@,
                        None => global@["auth_player_name"@],
                    },
                    config@,
                );
                (client.arguments.spec_jvm_raw(*p) + spec_quirks(
                    self.info.kind,
                    self.info.version@,
                    rfc3339_epoch(self.info.release_time@),
                    rfc3339_epoch("2013-04-25T15:45:00+00:00"@),
                )->0).map_values(|t: Seq<char>| spec_expand(t, env)) + seq![client.main_class@]
                    + client.arguments.spec_game_raw(*p).map_values(
                    |t: Seq<char>| spec_expand(t, env),
                )
            }),
    {
        let quirks = match quirk_arguments(
            self.info.kind,
            self.info.version.as_str(),
            self.info.release_time.as_str(),
        ) {
            Some(q) => q,
            None => {
                return None;
            },
        };
        let cp = self.classpath(&client, p, libs_dir, installations_dir, separator);
        let game_dir = self.dir_path(installations_dir);
        let mut natives_dir = game_dir.clone();
        natives_dir.append("/.natives");

        let mut builtins = Config::empty();
        builtins.set("game_directory", game_dir);
        builtins.set("assets_root", assets_dir.to_owned());
        builtins.set("game_assets", assets_dir.to_owned());
        builtins.set("assets_index_name", client.assets.clone());
        builtins.set("version_name", self.info.version.clone());
        builtins.set("classpath", cp);
        builtins.set("natives_directory", natives_dir);
        builtins.set(
            "auth_uuid",
            match profile {
                Some(pr) => pr.uuid.clone(),
                None => String::from_str("0"),
            },
        );
        builtins.set(
            "auth_access_token",
            match profile {
                Some(pr) => pr.access_token.clone(),
                None => String::from_str("0"),
            },
        );
        let player_name = match profile {
            Some(pr) => pr.username.clone(),
            None => {
                match global.get("auth_player_name") {
                    Some(v) => v.to_owned(),
                    None => {
                        proof {
                            assert(false);
                        }
                        String::new()
                    },
                }
            },
        };
        builtins.set("auth_player_name", player_name);
        builtins.set("clientid", String::from_str("74909cec-49b6-4fee-aa60-1b2a57ef72e1"));
        builtins.set("version_type", String::from_str("SynthLauncher"));

        let env = builtins.merge(config.clone());

        let Client { arguments, main_class, .. } = client;
        let (jvm_raw, game_raw) = arguments.into_raw(p);
        let ghost jvm_spec = jvm_raw.deep_view();
        let ghost quirks_spec = quirks.deep_view();
        let mut jvm = jvm_raw;
        let mut quirks = quirks;
        jvm.append(&mut quirks);
        proof {
            assert(jvm.deep_view() =~~= jvm_spec + quirks_spec);
        }

        let expanded_jvm = expand_all(&jvm, &env);
        let expanded_game = expand_all(&game_raw, &env);

        let mut result = expanded_jvm;
        let ghost ej = result.deep_view();
        result.push(main_class);
        proof {
            assert(result.deep_view() =~~= ej + seq![main_class@]);
        }
        let mut expanded_game = expanded_game;
        let ghost before_game = result.deep_view();
        let ghost eg = expanded_game.deep_view();
        result.append(&mut expanded_game);
        proof {
            assert(result.deep_view() =~~= before_game + eg);
            assert(result.deep_view() =~~= ({
                let env = spec_launch_env(
                    self.name@,
                    self.info.version@,
                    client.assets@,
                    join_with(
                        spec_classpath_entries(client.libraries@, *p, libs_dir@) + seq![
                            installations_dir@ + seq!['/'] + self.name@ + seq!['/'] + "client.jar"@,
                        ],
                        separator@,
                    ),
                    installations_dir@,
                    assets_dir@,
                    match profile {
                        Some(pr) => pr.uuid@,
                        None => "0"@,
                    },
                    match profile {
                        Some(pr) => pr.access_token@,
                        None => "0"@,
                    },
                    match profile {
                        Some(pr) => pr.username@,
                        None => global@["auth_player_name"@],
                    },
                    config@,
                );
                (client.arguments.spec_jvm_raw(*p) + spec_quirks(
                    self.info.kind,
                    self.info.version@,
                    rfc3339_epoch(self.info.release_time@),
                    rfc3339_epoch("2013-04-25T15:45:00+00:00"@),
                )->0).map_values(|t: Seq<char>| spec_expand(t, env)) + seq![client.main_class@]
                    + client.arguments.spec_game_raw(*p).map_values(
                    |t: Seq<char>| spec_expand(t, env),
                )
            }));
        }
        Some(result)
    }
}

} // verus!
