//! Repository specifications: `owner/repo` GitHub shorthand or Git clone
//! URLs, and the checkout directory each one is cloned into.

use vstd::prelude::*;
use vstd::string::*;

use crate::text::{
    after_last_of, after_last_of_chars, chars_of, contains_char, has_suffix, lemma_after_last_of_plain,
    lemma_after_last_of_tail, lemma_split_concat, lemma_split_nonempty, lemma_split_single_iff,
    lemma_trim_end_char_none, lemma_trim_end_char_push, message,
    split, split_chars, string_of, string_views, strip_suffix_or_self, strip_suffix_or_self_chars,
    trim, trim_chars, trim_end, trim_end_char, trim_end_char_chars, trim_start, views,
};

verus! {

/// A repository to clone: where it comes from and the directory of the
/// workspace that it is cloned into.
#[derive(Debug, Clone, PartialEq, Eq)]
pub struct Repository {
    pub source: String,
    pub directory: String,
}

/// The mathematical model of a [`Repository`].
pub struct RepositoryModel {
    pub source: Seq<char>,
    pub directory: Seq<char>,
}

impl View for Repository {
    type V = RepositoryModel;

    open spec fn view(&self) -> RepositoryModel {
        RepositoryModel { source: self.source@, directory: self.directory@ }
    }
}

/// The models of a sequence of repositories.
pub open spec fn repository_models(v: Seq<Repository>) -> Seq<RepositoryModel> {
    v.map_values(|r: Repository| r@)
}

/// The error when no repository is named.
pub open spec fn missing_repository_message() -> Seq<char> {
    "at least one repository is required."@
}

/// The error when no checkout directory follows from `specification`.
pub open spec fn checkout_directory_message(specification: Seq<char>) -> Seq<char> {
    "cannot determine a checkout directory from repository `"@ + specification + "`."@
}

/// A checkout directory is refused when it is empty, `.` or `..`, or
/// holds a path separator.
pub open spec fn is_invalid_checkout_directory(directory: Seq<char>) -> bool {
    ||| directory.len() == 0
    ||| directory == seq!['.']
    ||| directory == seq!['.', '.']
    ||| directory.contains('/')
    ||| directory.contains('\\')
}

/// `owner/repo` GitHub shorthand: exactly two non-empty `/`-separated
/// segments, no `:`, not hidden and not an absolute path.
pub open spec fn is_github_shorthand(s: Seq<char>) -> bool {
    let segments = split(s, '/');
    &&& segments.len() == 2
    &&& segments[0].len() > 0
    &&& segments[1].len() > 0
    &&& !s.contains(':')
    &&& !(s.len() > 0 && s[0] == '.')
    &&& !(s.len() > 0 && s[0] == '/')
}

/// Where a repository is cloned from: the GitHub HTTPS URL for shorthand,
/// else the specification itself.
pub open spec fn repository_source(s: Seq<char>) -> Seq<char> {
    if is_github_shorthand(s) {
        "https://github.com/"@ + strip_suffix_or_self(s, ".git"@) + ".git"@
    } else {
        s
    }
}

/// The checkout directory: the last `/`- or `:`-separated part of the
/// specification without trailing slashes, less a `.git` suffix.
pub open spec fn checkout_directory(s: Seq<char>) -> Seq<char> {
    strip_suffix_or_self(after_last_of(trim_end_char(s, '/'), '/', ':'), ".git"@)
}

/// What [`validate_repository_directory`] gives.
pub open spec fn spec_validate_repository_directory(
    directory: Seq<char>,
    specification: Seq<char>,
) -> Result<(), Seq<char>> {
    if is_invalid_checkout_directory(directory) {
        Err(checkout_directory_message(specification))
    } else {
        Ok(())
    }
}

/// What [`repository_from_specification`] gives.
pub open spec fn spec_repository(s: Seq<char>) -> Result<RepositoryModel, Seq<char>> {
    let directory = checkout_directory(s);
    if is_invalid_checkout_directory(directory) {
        Err(checkout_directory_message(s))
    } else {
        Ok(RepositoryModel { source: repository_source(s), directory })
    }
}

/// A path part that can be a checkout directory as it stands: not empty,
/// not `.` or `..`, and free of `/`, `:` and `\`.
pub open spec fn is_plain_part(n: Seq<char>) -> bool {
    &&& n.len() > 0
    &&& n != seq!['.']
    &&& n != seq!['.', '.']
    &&& !n.contains('/')
    &&& !n.contains(':')
    &&& !n.contains('\\')
}

proof fn lemma_plain_part_with_git(name: Seq<char>)
    requires
        is_plain_part(name),
    ensures
        !(name + ".git"@).contains('/'),
        !(name + ".git"@).contains(':'),
        (name + ".git"@).len() > 0,
        (name + ".git"@).last() != '/',
        has_suffix(name + ".git"@, ".git"@),
        strip_suffix_or_self(name + ".git"@, ".git"@) == name,
{
    reveal_strlit(".git");
    let g = ".git"@;
    let t = name + g;
    assert(t.skip(t.len() - g.len()) =~= g);
    assert(t.take(t.len() - g.len()) =~= name);
    assert(t.last() == 't');
    if t.contains('/') {
        let k = choose|k: int| 0 <= k < t.len() && t[k] == '/';
        if k < name.len() {
            assert(name[k] == '/');
        }
    }
    if t.contains(':') {
        let k = choose|k: int| 0 <= k < t.len() && t[k] == ':';
        if k < name.len() {
            assert(name[k] == ':');
        }
    }
}

/// The checkout directory is the specification's last `/`- or
/// `:`-separated part with every character kept: only a final `.git` and
/// trailing slashes are dropped, and what comes before the last
/// separator plays no part.
pub proof fn lemma_checkout_directory_is_last_part(prefix: Seq<char>, sep: char, name: Seq<char>)
    requires
        is_plain_part(name),
        sep == '/' || sep == ':',
    ensures
        !has_suffix(name, ".git"@) ==> (spec_repository(prefix + seq![sep] + name) matches Ok(m)
            && m.directory == name),
        !has_suffix(name, ".git"@) ==> (spec_repository(prefix + seq![sep] + name + seq!['/']) matches Ok(m)
            && m.directory == name),
        !has_suffix(name, ".git"@) ==> (spec_repository(name) matches Ok(m) && m.directory == name),
        spec_repository(prefix + seq![sep] + name + ".git"@) matches Ok(m) && m.directory == name,
        spec_repository(name + ".git"@) matches Ok(m) && m.directory == name,
{
    let p = prefix + seq![sep];
    assert(p.last() == sep);
    assert(name[name.len() - 1] == name.last());
    // the name as it stands
    lemma_trim_end_char_none(p + name, '/');
    assert((p + name).last() == name.last());
    assert(p + name =~= prefix + seq![sep] + name);
    lemma_after_last_of_tail(p, name, '/', ':');
    lemma_trim_end_char_push(p + name, '/');
    assert((p + name).push('/') =~= prefix + seq![sep] + name + seq!['/']);
    lemma_trim_end_char_none(name, '/');
    lemma_after_last_of_plain(name, '/', ':');
    // the name with `.git`
    lemma_plain_part_with_git(name);
    let t = name + ".git"@;
    assert(p + t =~= prefix + seq![sep] + name + ".git"@);
    assert((p + t).last() == t.last());
    lemma_trim_end_char_none(p + t, '/');
    lemma_after_last_of_tail(p, t, '/', ':');
    lemma_trim_end_char_none(t, '/');
    lemma_after_last_of_plain(t, '/', ':');
}

/// `owner/repo` shorthand is cloned from GitHub over HTTPS into a
/// directory named after the repository.
pub proof fn lemma_shorthand_repository(owner: Seq<char>, repo: Seq<char>)
    requires
        is_plain_part(owner),
        owner[0] != '.',
        is_plain_part(repo),
        !has_suffix(repo, ".git"@),
    ensures
        spec_repository(owner + seq!['/'] + repo) == Ok::<RepositoryModel, Seq<char>>(RepositoryModel {
            source: "https://github.com/"@ + owner + seq!['/'] + repo + ".git"@,
            directory: repo,
        }),
{
    let s = owner + seq!['/'] + repo;
    lemma_checkout_directory_is_last_part(owner, '/', repo);
    lemma_split_concat(owner, repo, '/');
    lemma_split_single_iff(owner, '/');
    lemma_split_single_iff(repo, '/');
    assert(s[0] == owner[0]);
    if s.contains(':') {
        let k = choose|k: int| 0 <= k < s.len() && s[k] == ':';
        if k < owner.len() {
            assert(owner[k] == ':');
        } else if k > owner.len() {
            assert(repo[k - owner.len() - 1] == ':');
        }
    }
    assert(is_github_shorthand(s));
    assert(has_suffix(s, ".git"@) ==> has_suffix(repo, ".git"@)) by {
        reveal_strlit(".git");
        if has_suffix(s, ".git"@) {
            let g = ".git"@;
            assert(s.skip(s.len() - 4) == g);
            if repo.len() < 4 {
                let k = s.len() - repo.len() - 1;
                assert(s[k] == '/');
                assert(s.skip(s.len() - 4)[k - (s.len() - 4)] == s[k]);
                assert(g[k - (s.len() - 4)] != '/');
            }
            assert(repo.skip(repo.len() - 4) =~= s.skip(s.len() - 4));
        }
    }
    assert(strip_suffix_or_self(s, ".git"@) == s);
    assert(repository_source(s) =~= "https://github.com/"@ + owner + seq!['/'] + repo + ".git"@);
    assert(checkout_directory(s) == repo);
}

/// The non-empty trimmed pieces, in order.
pub open spec fn trimmed_nonempty(pieces: Seq<Seq<char>>) -> Seq<Seq<char>>
    decreases pieces.len(),
{
    if pieces.len() == 0 {
        Seq::empty()
    } else {
        let rest = trimmed_nonempty(pieces.drop_last());
        let t = trim(pieces.last());
        if t.len() > 0 {
            rest.push(t)
        } else {
            rest
        }
    }
}

/// The repository specifications named by the arguments: each argument
/// split at commas, each piece trimmed, empty pieces dropped.
pub open spec fn specifications(args: Seq<Seq<char>>) -> Seq<Seq<char>>
    decreases args.len(),
{
    if args.len() == 0 {
        Seq::empty()
    } else {
        specifications(args.drop_last()) + trimmed_nonempty(split(args.last(), ','))
    }
}

/// The repositories of `specs` in order, or the error of the first one
/// that is refused.
pub open spec fn repositories_from(specs: Seq<Seq<char>>) -> Result<Seq<RepositoryModel>, Seq<char>>
    decreases specs.len(),
{
    if specs.len() == 0 {
        Ok(Seq::empty())
    } else {
        match repositories_from(specs.drop_last()) {
            Err(e) => Err(e),
            Ok(done) => match spec_repository(specs.last()) {
                Ok(r) => Ok(done.push(r)),
                Err(e) => Err(e),
            },
        }
    }
}

/// What [`parse_repositories`] gives.
pub open spec fn spec_parse_repositories(args: Seq<Seq<char>>) -> Result<Seq<RepositoryModel>, Seq<char>> {
    let specs = specifications(args);
    if specs.len() == 0 {
        Err(missing_repository_message())
    } else {
        repositories_from(specs)
    }
}

/// The arguments joined into one, separated by commas.
pub open spec fn join_with_commas(args: Seq<Seq<char>>) -> Seq<char>
    decreases args.len(),
{
    if args.len() == 0 {
        Seq::empty()
    } else if args.len() == 1 {
        args[0]
    } else {
        join_with_commas(args.drop_last()) + seq![','] + args.last()
    }
}

proof fn lemma_trimmed_nonempty_concat(a: Seq<Seq<char>>, b: Seq<Seq<char>>)
    ensures
        trimmed_nonempty(a + b) == trimmed_nonempty(a) + trimmed_nonempty(b),
    decreases b.len(),
{
    if b.len() == 0 {
        assert(a + b == a);
        assert(trimmed_nonempty(a) + trimmed_nonempty(b) == trimmed_nonempty(a));
    } else {
        assert((a + b).drop_last() == a + b.drop_last());
        assert((a + b).last() == b.last());
        lemma_trimmed_nonempty_concat(a, b.drop_last());
        let t = trim(b.last());
        if t.len() > 0 {
            assert(trimmed_nonempty(a) + trimmed_nonempty(b.drop_last()).push(t) == (trimmed_nonempty(a)
                + trimmed_nonempty(b.drop_last())).push(t));
        }
    }
}

proof fn lemma_specifications_joined(args: Seq<Seq<char>>)
    ensures
        specifications(args) == specifications(seq![join_with_commas(args)]),
    decreases args.len(),
{
    let joined = seq![join_with_commas(args)];
    assert(joined.drop_last() == Seq::<Seq<char>>::empty());
    assert(joined.last() == join_with_commas(args));
    assert(specifications(joined.drop_last()) == Seq::<Seq<char>>::empty());
    assert(specifications(joined) == Seq::<Seq<char>>::empty() + trimmed_nonempty(split(join_with_commas(args), ',')));
    assert(Seq::<Seq<char>>::empty() + trimmed_nonempty(split(join_with_commas(args), ',')) == trimmed_nonempty(split(join_with_commas(args), ',')));
    if args.len() == 0 {
        let e = Seq::<char>::empty();
        assert(split(e, ',') == seq![e]);
        assert(seq![e].drop_last() == Seq::<Seq<char>>::empty());
        assert(trim_start(e) == e);
        assert(trim_end(e) == e);
        assert(trim(e) == e);
        assert(seq![e].last() == e);
        assert(trimmed_nonempty(seq![e].drop_last()) == Seq::<Seq<char>>::empty());
        assert(trimmed_nonempty(seq![e]) == Seq::<Seq<char>>::empty());
    } else if args.len() == 1 {
        assert(args.drop_last() == Seq::<Seq<char>>::empty());
        assert(args.last() == args[0]);
        assert(Seq::<Seq<char>>::empty() + trimmed_nonempty(split(args[0], ',')) == trimmed_nonempty(split(args[0], ',')));
    } else {
        let d = args.drop_last();
        lemma_specifications_joined(d);
        let jd = seq![join_with_commas(d)];
        assert(jd.drop_last() == Seq::<Seq<char>>::empty());
        assert(jd.last() == join_with_commas(d));
        assert(Seq::<Seq<char>>::empty() + trimmed_nonempty(split(join_with_commas(d), ',')) == trimmed_nonempty(split(join_with_commas(d), ',')));
        lemma_split_concat(join_with_commas(d), args.last(), ',');
        lemma_trimmed_nonempty_concat(split(join_with_commas(d), ','), split(args.last(), ','));
    }
}

/// Naming repositories in several arguments or in one argument that
/// joins them with commas gives the same result.
pub proof fn lemma_parse_joined_arguments(args: Seq<Seq<char>>)
    ensures
        spec_parse_repositories(args) == spec_parse_repositories(seq![join_with_commas(args)]),
{
    lemma_specifications_joined(args);
}

proof fn lemma_repositories_from_prefix_error(specs: Seq<Seq<char>>, k: int)
    requires
        0 <= k <= specs.len(),
        repositories_from(specs.take(k)) is Err,
    ensures
        repositories_from(specs) == repositories_from(specs.take(k)),
    decreases specs.len() - k,
{
    if k < specs.len() {
        assert(specs.take(k + 1).drop_last() == specs.take(k));
        lemma_repositories_from_prefix_error(specs, k + 1);
    } else {
        assert(specs.take(k) == specs);
    }
}

proof fn lemma_trimmed_nonempty_nonempty(pieces: Seq<Seq<char>>)
    ensures
        forall|i: int| 0 <= i < trimmed_nonempty(pieces).len() ==> (#[trigger] trimmed_nonempty(pieces)[i]).len() > 0,
    decreases pieces.len(),
{
    if pieces.len() > 0 {
        lemma_trimmed_nonempty_nonempty(pieces.drop_last());
        let rest = trimmed_nonempty(pieces.drop_last());
        let t = trim(pieces.last());
        if t.len() > 0 {
            assert forall|i: int| 0 <= i < rest.push(t).len() implies (#[trigger] rest.push(t)[i]).len() > 0 by {
                if i < rest.len() {
                    assert(rest.push(t)[i] == rest[i]);
                }
            }
        }
    }
}

proof fn lemma_specifications_nonempty(args: Seq<Seq<char>>)
    ensures
        forall|i: int| 0 <= i < specifications(args).len() ==> (#[trigger] specifications(args)[i]).len() > 0,
    decreases args.len(),
{
    if args.len() > 0 {
        lemma_specifications_nonempty(args.drop_last());
        lemma_trimmed_nonempty_nonempty(split(args.last(), ','));
        let a = specifications(args.drop_last());
        let b = trimmed_nonempty(split(args.last(), ','));
        assert forall|i: int| 0 <= i < specifications(args).len() implies (#[trigger] specifications(args)[i]).len() > 0 by {
            if i < a.len() {
                assert(specifications(args)[i] == a[i]);
            } else {
                assert(specifications(args)[i] == b[i - a.len()]);
            }
        }
    }
}

/// A repository made from a non-empty specification has a non-empty
/// source.
proof fn lemma_repository_source_nonempty(s: Seq<char>)
    requires
        s.len() > 0,
    ensures
        repository_source(s).len() > 0,
{
    reveal_strlit("https://github.com/");
}

/// Every repository that the specifications give has a valid checkout
/// directory and a non-empty source.
proof fn lemma_repositories_from_valid(specs: Seq<Seq<char>>)
    requires
        forall|i: int| 0 <= i < specs.len() ==> (#[trigger] specs[i]).len() > 0,
    ensures
        repositories_from(specs) matches Ok(rs) ==> rs.len() == specs.len() && forall|i: int|
            0 <= i < rs.len() ==> (#[trigger] rs[i]) == spec_repository(specs[i])->Ok_0
                && !is_invalid_checkout_directory(rs[i].directory) && rs[i].source.len() > 0,
    decreases specs.len(),
{
    if specs.len() > 0 {
        assert forall|i: int| 0 <= i < specs.drop_last().len() implies (#[trigger] specs.drop_last()[i]).len() > 0 by {
            assert(specs.drop_last()[i] == specs[i]);
        }
        lemma_repositories_from_valid(specs.drop_last());
        lemma_repository_source_nonempty(specs.last());
    }
}

/// Refuses a checkout directory that is empty, `.` or `..`, or holds a
/// path separator; the error names `specification`.
pub fn validate_repository_directory(directory: &str, specification: &str) -> (res: Result<(), String>)
    ensures
        match spec_validate_repository_directory(directory@, specification@) {
            Ok(_) => res is Ok,
            Err(e) => res matches Err(m) && m@ == e,
        },
{
    let d = chars_of(directory);
    let s = chars_of(specification);
    validate_directory_chars(&d, &s)
}

fn validate_directory_chars(d: &[char], specification: &[char]) -> (res: Result<(), String>)
    ensures
        match spec_validate_repository_directory(d@, specification@) {
            Ok(_) => res is Ok,
            Err(e) => res matches Err(m) && m@ == e,
        },
{
    let invalid = d.len() == 0 || (d.len() == 1 && d[0] == '.') || (d.len() == 2 && d[0] == '.'
        && d[1] == '.') || contains_char(d, '/') || contains_char(d, '\\');
    proof {
        if d@.len() == 1 && d@[0] == '.' {
            assert(d@ == seq!['.']);
        }
        if d@.len() == 2 && d@[0] == '.' && d@[1] == '.' {
            assert(d@ == seq!['.', '.']);
        }
    }
    if invalid {
        Err(message("cannot determine a checkout directory from repository `", specification, "`."))
    } else {
        Ok(())
    }
}

fn repository_from_chars(s: &[char]) -> (res: Result<Repository, String>)
    ensures
        match spec_repository(s@) {
            Ok(m) => res matches Ok(r) && r@ == m,
            Err(e) => res matches Err(m) && m@ == e,
        },
{
    let segments = split_chars(s, '/');
    proof {
        lemma_split_nonempty(s@, '/');
    }
    let shorthand = segments.len() == 2 && segments[0].len() > 0 && segments[1].len() > 0
        && !contains_char(s, ':') && !(s.len() > 0 && s[0] == '.') && !(s.len() > 0 && s[0]
        == '/');
    proof {
        if segments@.len() == 2 {
            assert(views(segments@)[0] == segments@[0]@);
            assert(views(segments@)[1] == segments@[1]@);
        }
    }
    assert(shorthand == is_github_shorthand(s@));
    let git = chars_of(".git");
    let source = if shorthand {
        let stripped = strip_suffix_or_self_chars(s, &git);
        message("https://github.com/", &stripped, ".git")
    } else {
        string_of(s)
    };
    let trimmed = trim_end_char_chars(s, '/');
    let last = after_last_of_chars(&trimmed, '/', ':');
    let directory = strip_suffix_or_self_chars(&last, &git);
    match validate_directory_chars(&directory, s) {
        Err(e) => Err(e),
        Ok(()) => Ok(Repository { source, directory: string_of(&directory) }),
    }
}

/// The repository named by one specification: GitHub shorthand becomes
/// its HTTPS clone URL, and the checkout directory is the last path part
/// without a `.git` suffix.
pub fn repository_from_specification(specification: &str) -> (res: Result<Repository, String>)
    ensures
        match spec_repository(specification@) {
            Ok(m) => res matches Ok(r) && r@ == m,
            Err(e) => res matches Err(m) && m@ == e,
        },
{
    let s = chars_of(specification);
    repository_from_chars(&s)
}

/// The repositories named by the arguments, each of which may list
/// several specifications separated by commas.
pub fn parse_repositories(args: &[String]) -> (res: Result<Vec<Repository>, String>)
    ensures
        match spec_parse_repositories(string_views(args@)) {
            Ok(rs) => res matches Ok(v) && repository_models(v@) == rs,
            Err(e) => res matches Err(m) && m@ == e,
        },
        res matches Ok(v) ==> v@.len() > 0 && forall|i: int|
            0 <= i < v@.len() ==> !is_invalid_checkout_directory((#[trigger] v@[i]).directory@)
                && v@[i].source@.len() > 0,
{
    let ghost args_view = string_views(args@);
    let mut specs: Vec<Vec<char>> = Vec::new();
    let n = args.len();
    assert(args_view.take(0) == Seq::<Seq<char>>::empty());
    for i in 0..n
        invariant
            n == args@.len(),
            args_view == string_views(args@),
            views(specs@) == specifications(args_view.take(i as int)),
    {
        let arg = chars_of(args[i].as_str());
        let pieces = split_chars(&arg, ',');
        let ghost before = views(specs@);
        let m = pieces.len();
        assert(views(pieces@).take(0) == Seq::<Seq<char>>::empty());
        for j in 0..m
            invariant
                m == pieces@.len(),
                views(specs@) == before + trimmed_nonempty(views(pieces@).take(j as int)),
        {
            let t = trim_chars(pieces[j].as_slice());
            assert(views(pieces@).take(j + 1).drop_last() == views(pieces@).take(j as int));
            assert(views(pieces@)[j as int] == pieces@[j as int]@);
            if t.len() > 0 {
                let ghost prev = views(specs@);
                specs.push(t);
                assert(views(specs@) == prev.push(t@));
            }
        }
        assert(views(pieces@).take(m as int) == views(pieces@));
        assert(args_view.take(i + 1).drop_last() == args_view.take(i as int));
        assert(args_view[i as int] == arg@);
    }
    assert(args_view.take(n as int) == args_view);
    if specs.len() == 0 {
        return Err("at least one repository is required.".to_owned());
    }
    let ghost sv = views(specs@);
    let mut repositories: Vec<Repository> = Vec::new();
    let k = specs.len();
    assert(sv.take(0) == Seq::<Seq<char>>::empty());
    assert(repository_models(repositories@) == Seq::<RepositoryModel>::empty());
    for j in 0..k
        invariant
            k == specs@.len(),
            sv == views(specs@),
            sv == specifications(args_view),
            args_view == string_views(args@),
            repositories_from(sv.take(j as int)) == Ok::<Seq<RepositoryModel>, Seq<char>>(
                repository_models(repositories@),
            ),
    {
        assert(sv.take(j + 1).drop_last() == sv.take(j as int));
        assert(sv[j as int] == specs@[j as int]@);
        match repository_from_chars(specs[j].as_slice()) {
            Ok(r) => {
                let ghost prev = repository_models(repositories@);
                repositories.push(r);
                assert(repository_models(repositories@) == prev.push(r@));
            },
            Err(e) => {
                proof {
                    assert(sv.take(j + 1).last() == sv[j as int]);
                    assert(repositories_from(sv.take(j + 1)) == Err::<Seq<RepositoryModel>, Seq<char>>(e@));
                    lemma_repositories_from_prefix_error(sv, j + 1);
                }
                assert(sv.take(k as int) == sv);
                return Err(e);
            },
        }
    }
    assert(sv.take(k as int) == sv);
    proof {
        lemma_specifications_nonempty(args_view);
        lemma_repositories_from_valid(sv);
        assert forall|i: int| 0 <= i < repositories@.len() implies !is_invalid_checkout_directory(
            (#[trigger] repositories@[i]).directory@,
        ) && repositories@[i].source@.len() > 0 by {
            assert(repository_models(repositories@)[i] == repositories@[i]@);
        }
    }
    Ok(repositories)
}

} // verus!
