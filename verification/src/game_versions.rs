//! The known versions of the game: which there are, the latest build of the
//! mappings for each, and the Java version that each needs.
use crate::api_structs::{MinecraftVersion, YarnMappingsVersion};
use crate::precedence::Precedence;
use crate::semantic_version::{at_most, same_version, SemanticVersion, VersionModel};
use crate::version_text::{parse_version, parse_version_spec};
use vstd::prelude::*;

verus! {

/// A version of the game with the latest build of its mappings.
pub open spec fn known_models(versions: Seq<(SemanticVersion, u32)>) -> Seq<(VersionModel, u32)> {
    Seq::new(versions.len(), |i: int| (versions[i].0@, versions[i].1))
}

/// The version `major.minor.patch`, without release and build.
pub open spec fn plain_version(major: u32, minor: u32, patch: u32) -> VersionModel {
    VersionModel { major, minor, patch, release: None, build: None }
}

/// From which version of the game on which version of Java is needed.
pub open spec fn java_version_table_spec() -> Seq<(VersionModel, u32)> {
    seq![
        (plain_version(0, 0, 0), 8u32),
        (plain_version(1, 17, 0), 16u32),
        (plain_version(1, 18, 0), 17u32),
        (plain_version(1, 20, 5), 21u32),
    ]
}

/// The Java version of the last entry of `table` that `v` has reached; `8`
/// where it has reached none.
pub open spec fn java_version_spec(table: Seq<(VersionModel, u32)>, v: VersionModel) -> u32
    decreases table.len(),
{
    if table.len() == 0 {
        8
    } else if at_most(table.last().0, v) {
        table.last().1
    } else {
        java_version_spec(table.drop_last(), v)
    }
}

fn plain(major: u32, minor: u32, patch: u32) -> (r: SemanticVersion)
    ensures
        r@ == plain_version(major, minor, patch),
{
    SemanticVersion { major, minor, patch, release: None, build: None }
}

/// The table of Java versions, lowest version of the game first.
pub fn java_version_table() -> (r: Vec<(SemanticVersion, u32)>)
    ensures
        known_models(r@) == java_version_table_spec(),
{
    let mut table: Vec<(SemanticVersion, u32)> = Vec::new();
    table.push((plain(0, 0, 0), 8));
    table.push((plain(1, 17, 0), 16));
    table.push((plain(1, 18, 0), 17));
    table.push((plain(1, 20, 5), 21));
    assert(known_models(table@) =~= java_version_table_spec());
    table
}

/// The Java version that a version of the game needs.
pub fn get_java_version(mc_version: &SemanticVersion) -> (r: u32)
    ensures
        r == java_version_spec(java_version_table_spec(), mc_version@),
        r == 8 || r == 16 || r == 17 || r == 21,
{
    let table = java_version_table();
    let ghost whole = java_version_table_spec();
    let mut i: usize = table.len();
    assert(whole.take(i as int) =~= whole);
    while i > 0
        invariant
            i <= table.len(),
            table.len() == 4,
            known_models(table@) == whole,
            whole == java_version_table_spec(),
            java_version_spec(whole, mc_version@) == java_version_spec(
                whole.take(i as int),
                mc_version@,
            ),
        decreases i,
    {
        let ghost part = whole.take(i as int);
        assert(part.last() == whole[i - 1]);
        assert(whole[i - 1] == (table@[i - 1].0@, table@[i - 1].1));
        assert(part.drop_last() =~= whole.take(i - 1));
        match table[i - 1].0.compare(mc_version) {
            Precedence::Higher => {},
            _ => {
                return table[i - 1].1;
            },
        }
        i -= 1;
    }
    8
}

/// Index of the first element of `s` that satisfies `p`.
pub open spec fn first_where<A>(s: Seq<A>, p: spec_fn(A) -> bool) -> Option<int>
    decreases s.len(),
{
    if s.len() == 0 {
        None
    } else {
        match first_where(s.drop_last(), p) {
            Some(i) => Some(i),
            None => if p(s.last()) {
                Some(s.len() - 1)
            } else {
                None
            },
        }
    }
}

/// The first element found satisfies `p` and none before it does; where
/// none is found, none does.
pub proof fn lemma_first_where<A>(s: Seq<A>, p: spec_fn(A) -> bool)
    ensures
        match first_where(s, p) {
            Some(i) => 0 <= i < s.len() && p(s[i]) && forall|j: int| 0 <= j < i ==> !p(s[j]),
            None => forall|j: int| 0 <= j < s.len() ==> !p(s[j]),
        },
    decreases s.len(),
{
    if s.len() > 0 {
        lemma_first_where(s.drop_last(), p);
        match first_where(s.drop_last(), p) {
            Some(i) => {
                assert(s.drop_last()[i] == s[i]);
                assert forall|j: int| 0 <= j < i implies !p(s[j]) by {
                    assert(s.drop_last()[j] == s[j]);
                }
            },
            None => {
                assert forall|j: int| 0 <= j < s.len() - 1 implies !p(s[j]) by {
                    assert(s.drop_last()[j] == s[j]);
                }
            },
        }
    }
}

/// An element that satisfies `p`, with none before it that does, is the
/// first found.
pub proof fn lemma_first_where_unique<A>(s: Seq<A>, p: spec_fn(A) -> bool, i: int)
    requires
        0 <= i < s.len(),
        p(s[i]),
        forall|j: int| 0 <= j < i ==> !p(s[j]),
    ensures
        first_where(s, p) == Some(i),
{
    lemma_first_where(s, p);
}

/// The known version is equal to `v`: the build of `v` is not looked at.
pub open spec fn is_version(v: VersionModel) -> spec_fn((VersionModel, u32)) -> bool {
    |known: (VersionModel, u32)| same_version(known.0, v)
}

/// The known version has the numbers of `v`.
pub open spec fn has_numbers(v: VersionModel) -> spec_fn((VersionModel, u32)) -> bool {
    |known: (VersionModel, u32)|
        known.0.major == v.major && known.0.minor == v.minor && known.0.patch == v.patch
}

/// Where `version` stands among the known versions.
pub fn position_of_version(versions: &Vec<(SemanticVersion, u32)>, version: &SemanticVersion) -> (r:
    Option<usize>)
    ensures
        match r {
            Some(i) => first_where(known_models(versions@), is_version(version@)) == Some(
                i as int,
            ) && i < versions.len(),
            None => first_where(known_models(versions@), is_version(version@)) is None,
        },
{
    let ghost known = known_models(versions@);
    let mut i: usize = 0;
    while i < versions.len()
        invariant
            i <= versions.len(),
            known == known_models(versions@),
            forall|j: int| 0 <= j < i ==> !is_version(version@)(known[j]),
        decreases versions.len() - i,
    {
        assert(known[i as int] == (versions@[i as int].0@, versions@[i as int].1));
        if versions[i].0 == *version {
            proof {
                lemma_first_where_unique(known, is_version(version@), i as int);
            }
            return Some(i);
        }
        i += 1;
    }
    proof {
        lemma_first_where(known, is_version(version@));
    }
    None
}

/// Where the first version with the numbers of `version` stands among the
/// known versions.
pub fn position_of_numbers(versions: &Vec<(SemanticVersion, u32)>, version: &SemanticVersion) -> (r:
    Option<usize>)
    ensures
        match r {
            Some(i) => first_where(known_models(versions@), has_numbers(version@)) == Some(
                i as int,
            ) && i < versions.len(),
            None => first_where(known_models(versions@), has_numbers(version@)) is None,
        },
{
    let ghost known = known_models(versions@);
    let mut i: usize = 0;
    while i < versions.len()
        invariant
            i <= versions.len(),
            known == known_models(versions@),
            forall|j: int| 0 <= j < i ==> !has_numbers(version@)(known[j]),
        decreases versions.len() - i,
    {
        assert(known[i as int] == (versions@[i as int].0@, versions@[i as int].1));
        if versions[i].0.matches_numbers(version) {
            proof {
                lemma_first_where_unique(known, has_numbers(version@), i as int);
            }
            return Some(i);
        }
        i += 1;
    }
    proof {
        lemma_first_where(known, has_numbers(version@));
    }
    None
}

/// The stable versions of the game whose text is a version, each with no
/// build of the mappings yet.
pub open spec fn stable_versions(game: Seq<MinecraftVersion>) -> Seq<(VersionModel, u32)>
    decreases game.len(),
{
    if game.len() == 0 {
        Seq::<(VersionModel, u32)>::empty()
    } else {
        let done = stable_versions(game.drop_last());
        match parse_version_spec(game.last().version@) {
            Ok(v) => if game.last().stable {
                done.push((v, 0u32))
            } else {
                done
            },
            Err(_) => done,
        }
    }
}

/// The known versions once a build of the mappings is counted: the first
/// version equal to that of the build gets it, if it is later than the build
/// it has.
pub open spec fn with_build(
    versions: Seq<(VersionModel, u32)>,
    game_version: Seq<char>,
    build: u32,
) -> Seq<(VersionModel, u32)> {
    match parse_version_spec(game_version) {
        Err(_) => versions,
        Ok(v) => match first_where(versions, is_version(v)) {
            None => versions,
            Some(i) => versions.update(
                i,
                (
                    versions[i].0,
                    if build > versions[i].1 {
                        build
                    } else {
                        versions[i].1
                    },
                ),
            ),
        },
    }
}

/// The known versions once each of the builds is counted, in order.
pub open spec fn with_builds(versions: Seq<(VersionModel, u32)>, yarn: Seq<YarnMappingsVersion>) -> Seq<
    (VersionModel, u32),
>
    decreases yarn.len(),
{
    if yarn.len() == 0 {
        versions
    } else {
        with_build(with_builds(versions, yarn.drop_last()), yarn.last().gameVersion@, yarn.last().build)
    }
}

/// The stable versions of the game, each with the latest build of its
/// mappings, or `0` where it has none.
pub open spec fn known_versions_spec(
    game: Seq<MinecraftVersion>,
    yarn: Seq<YarnMappingsVersion>,
) -> Seq<(VersionModel, u32)> {
    with_builds(stable_versions(game), yarn)
}

/// Puts together what is known of the versions of the game.
pub fn known_versions(game: &Vec<MinecraftVersion>, yarn: &Vec<YarnMappingsVersion>) -> (r: Vec<
    (SemanticVersion, u32),
>)
    ensures
        known_models(r@) == known_versions_spec(game@, yarn@),
{
    let mut versions: Vec<(SemanticVersion, u32)> = Vec::new();
    let mut i: usize = 0;
    assert(game@.take(0) =~= Seq::<MinecraftVersion>::empty());
    assert(known_models(versions@) =~= Seq::<(VersionModel, u32)>::empty());
    while i < game.len()
        invariant
            i <= game.len(),
            known_models(versions@) == stable_versions(game@.take(i as int)),
        decreases game.len() - i,
    {
        let ghost before = known_models(versions@);
        proof {
            let part = game@.take(i + 1);
            assert(part.drop_last() =~= game@.take(i as int));
            assert(part.last() == game@[i as int]);
        }
        if game[i].stable {
            match parse_version(game[i].version.as_str()) {
                Ok(v) => {
                    versions.push((v, 0));
                    assert(known_models(versions@) =~= before.push((v@, 0u32)));
                },
                Err(_) => {},
            }
        }
        i += 1;
    }
    assert(game@.take(game.len() as int) =~= game@);
    let mut k: usize = 0;
    assert(yarn@.take(0) =~= Seq::<YarnMappingsVersion>::empty());
    while k < yarn.len()
        invariant
            k <= yarn.len(),
            known_models(versions@) == with_builds(stable_versions(game@), yarn@.take(k as int)),
        decreases yarn.len() - k,
    {
        let ghost before = known_models(versions@);
        proof {
            let part = yarn@.take(k + 1);
            assert(part.drop_last() =~= yarn@.take(k as int));
            assert(part.last() == yarn@[k as int]);
        }
        match parse_version(yarn[k].gameVersion.as_str()) {
            Ok(v) => match position_of_version(&versions, &v) {
                Some(at) => {
                    let build = yarn[k].build;
                    let held = versions[at].1;
                    let (version, _) = versions.remove(at);
                    let latest = if build > held {
                        build
                    } else {
                        held
                    };
                    versions.insert(at, (version, latest));
                    assert(known_models(versions@) =~= before.update(
                        at as int,
                        (before[at as int].0, latest),
                    ));
                },
                None => {},
            },
            Err(_) => {},
        }
        k += 1;
    }
    assert(yarn@.take(yarn.len() as int) =~= yarn@);
    versions
}

} // verus!
