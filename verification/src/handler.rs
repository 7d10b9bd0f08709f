//! The handling of a badge request, as a sequence of decisions between the
//! outside work it needs: resolving the commit of a branch, then counting the
//! lines of that commit. Each step takes what the outside work gave and
//! says what to do next.
use vstd::prelude::*;
use crate::badge::{is_badge_plan, make_badge, RenderPlan};
use crate::languages::{
    lemma_selection_fits, ranking_language, ranking_text, select_languages, selected_languages,
    sum_blanks, sum_code, sum_comments, sum_files, totals, totals_fit, LanguageStats,
};
use crate::ls_remote::split_hash_and_branch;
use crate::repo::{
    decode_domain, etag_identifier, hash_joined, normalized_domain, percent_decode_text,
    repo_identifier, repo_url, repo_url_text,
};
use crate::text::{chars_of, parse_unsigned, parse_usize, split_once};

verus! {

// ---------------------------------------------------------------------------
// The query and its defaults
// ---------------------------------------------------------------------------

/// The query parameters of a badge request, each as given, if given.
pub struct BadgeQuery {
    pub category: Option<String>,
    pub label: Option<String>,
    pub style: Option<String>,
    pub color: Option<String>,
    pub logo: Option<String>,
    pub language_type: Option<String>,
    pub show_language: Option<String>,
    pub language_rank: Option<String>,
    pub branch: Option<String>,
}

/// The options of a badge request, with defaults in place of what was not
/// given.
pub struct BadgeOptions {
    pub category: String,
    pub label: String,
    pub no_label: bool,
    pub style: String,
    pub color: String,
    pub logo: String,
    pub language_types: String,
    pub show_language: bool,
    pub language_rank: usize,
    pub branch: String,
}

/// The text of `o`, or `d` where it is not given.
pub open spec fn or_default(o: Option<String>, d: Seq<char>) -> Seq<char> {
    match o {
        Some(s) => s@,
        None => d,
    }
}

/// The rank asked for: 1 where none is given, 0 where the given one is not
/// a number.
pub open spec fn rank_setting(o: Option<String>) -> nat {
    match o {
        Some(s) => match parse_unsigned(s@, usize::MAX as nat) {
            Some(v) => v,
            None => 0,
        },
        None => 1,
    }
}

/// Whether `o` holds the options that `q` asks for.
pub open spec fn options_of(q: BadgeQuery, o: BadgeOptions) -> bool {
    &&& o.category@ == or_default(q.category, "lines"@)
    &&& o.label@ == or_default(q.label, Seq::<char>::empty())
    &&& o.no_label == (q.label is None)
    &&& o.style@ == or_default(q.style, "flat"@)
    &&& o.color@ == or_default(q.color, "#007ec6"@)
    &&& o.logo@ == or_default(q.logo, Seq::<char>::empty())
    &&& o.language_types@ == or_default(q.language_type, Seq::<char>::empty())
    &&& o.show_language == (q.show_language matches Some(s) && s@ == "true"@)
    &&& o.language_rank as nat == rank_setting(q.language_rank)
    &&& o.branch@ == or_default(q.branch, Seq::<char>::empty())
}

fn text_or(o: Option<String>, d: &str) -> (r: String)
    ensures
        r@ == match o {
            Some(s) => s@,
            None => d@,
        },
{
    match o {
        Some(s) => s,
        None => String::from_str(d),
    }
}

impl BadgeOptions {
    /// The options that the query `q` asks for: the category `lines`, no
    /// label, the style `flat`, the colour `#007ec6`, no logo, every
    /// language, the language name not shown, rank 1 and the default branch
    /// where nothing else is given.
    pub fn from_query(q: BadgeQuery) -> (r: BadgeOptions)
        ensures
            options_of(q, r),
    {
        proof {
            reveal_strlit("");
        }
        let no_label = q.label.is_none();
        let show_language = match &q.show_language {
            Some(s) => {
                let t = String::from_str("true");
                *s == t
            },
            None => false,
        };
        let language_rank: usize = match &q.language_rank {
            Some(s) => {
                let cs = chars_of(s.as_str());
                match parse_usize(cs.as_slice()) {
                    Some(v) => v,
                    None => 0,
                }
            },
            None => 1,
        };
        let r = BadgeOptions {
            category: text_or(q.category, "lines"),
            label: text_or(q.label, ""),
            no_label,
            style: text_or(q.style, "flat"),
            color: text_or(q.color, "#007ec6"),
            logo: text_or(q.logo, ""),
            language_types: text_or(q.language_type, ""),
            show_language,
            language_rank,
            branch: text_or(q.branch, ""),
        };
        assert(r.category@ == or_default(q.category, "lines"@));
        assert(r.label@ == or_default(q.label, Seq::<char>::empty()));
        assert(r.no_label == (q.label is None));
        assert(r.style@ == or_default(q.style, "flat"@));
        assert(r.show_language == (q.show_language matches Some(s) && s@ == "true"@));
        assert(r.language_rank as nat == rank_setting(q.language_rank));
        assert(r.color@ == or_default(q.color, "#007ec6"@));
        assert(r.logo@ == or_default(q.logo, Seq::<char>::empty()));
        assert(r.language_types@ == or_default(q.language_type, Seq::<char>::empty()));
        assert(r.branch@ == or_default(q.branch, Seq::<char>::empty()));
        r
    }
}

/// Every query parameter that is given is kept as given; the defaults
/// (category `lines`, no label, style `flat`, colour `#007ec6`, no logo, no
/// language list, the language not shown, rank 1, the default branch) stand
/// only for parameters that are not given.
pub proof fn law_given_options_are_kept(q: BadgeQuery, o: BadgeOptions)
    requires
        options_of(q, o),
    ensures
        q.category matches Some(c) ==> o.category@ == c@,
        q.category is None ==> o.category@ == "lines"@,
        q.label matches Some(l) ==> o.label@ == l@ && !o.no_label,
        q.label is None ==> o.label@.len() == 0 && o.no_label,
        q.style matches Some(st) ==> o.style@ == st@,
        q.style is None ==> o.style@ == "flat"@,
        q.color matches Some(c) ==> o.color@ == c@,
        q.color is None ==> o.color@ == "#007ec6"@,
        q.logo matches Some(l) ==> o.logo@ == l@,
        q.logo is None ==> o.logo@.len() == 0,
        q.language_type matches Some(t) ==> o.language_types@ == t@,
        q.language_type is None ==> o.language_types@.len() == 0,
        q.branch matches Some(b) ==> o.branch@ == b@,
        q.branch is None ==> o.branch@.len() == 0,
        o.show_language <==> (q.show_language matches Some(v) && v@ == "true"@),
        q.language_rank is None ==> o.language_rank == 1,
        q.language_rank matches Some(r) ==> match parse_unsigned(r@, usize::MAX as nat) {
            Some(v) => o.language_rank as nat == v,
            None => o.language_rank == 0,
        },
{
}

// ---------------------------------------------------------------------------
// Entity tags
// ---------------------------------------------------------------------------

/// An entity tag of an `If-None-Match` header.
pub struct EntityTagValue {
    pub weak: bool,
    pub tag: String,
}

/// An `If-None-Match` header.
pub enum IfNoneMatch {
    /// `*`.
    Any,
    /// A list of entity tags.
    Items(Vec<EntityTagValue>),
}

/// Whether `header` lists the entity tag `tag`, compared weakly (by the tag
/// alone); `*` matches nothing here.
pub open spec fn etag_listed(header: IfNoneMatch, tag: Seq<char>) -> bool {
    match header {
        IfNoneMatch::Any => false,
        IfNoneMatch::Items(items) => exists|i: int|
            0 <= i < items@.len() && #[trigger] items@[i].tag@ == tag,
    }
}

/// Whether one of `items` has the tag `tag`.
fn tag_listed(items: &Vec<EntityTagValue>, tag: &String) -> (r: bool)
    ensures
        r == exists|i: int| 0 <= i < items@.len() && #[trigger] items@[i].tag@ == tag@,
{
    let mut i: usize = 0;
    while i < items.len()
        invariant
            i <= items@.len(),
            forall|j: int| 0 <= j < i ==> items@[j].tag@ != tag@,
        decreases items@.len() - i,
    {
        if items[i].tag == *tag {
            assert(items@[i as int].tag@ == tag@);
            return true;
        }
        i = i + 1;
    }
    false
}

/// Whether `header` lists the entity tag `tag`.
pub fn etag_found(header: &IfNoneMatch, tag: &String) -> (r: bool)
    ensures
        r == etag_listed(*header, tag@),
{
    match header {
        IfNoneMatch::Any => false,
        IfNoneMatch::Items(items) => tag_listed(items, tag),
    }
}

// ---------------------------------------------------------------------------
// The steps of a request
// ---------------------------------------------------------------------------

/// Why a request fails.
pub enum HandlerError {
    /// The configuration does not serve the user's repositories.
    UserNotAllowed,
    /// The host is not valid UTF-8 once percent-decoded.
    InvalidDomain,
    /// The commit could not be resolved; the text says why.
    ResolveFailed { message: String },
    /// The resolved commit is not of the form `hash#branch`.
    InvalidShaResolve,
    /// The lines could not be counted; the text says why.
    StatisticsFailed { message: String },
}

/// What to do next.
pub enum Action {
    /// Resolve the commit of `branch` (the default branch where empty) of
    /// `user/repo` on `domain`, and report it with `on_sha_resolved`.
    ResolveSha { domain: String, user: String, repo: String, branch: String },
    /// Answer that the badge has not changed; the statistics cached under
    /// `statistics_key` are still current.
    NotModified { statistics_key: String },
    /// Count the lines of commit `sha` of branch `branch` of the repository
    /// at `url`, ordered by code count, most first, and report them with
    /// `on_statistics`.
    FetchStatistics { url: String, sha: String, branch: String },
    /// Answer with `plan`, tagged `etag`; `languages` are those reported on.
    Respond { plan: RenderPlan, etag: String, languages: Vec<LanguageStats> },
    /// Answer with an error.
    Fail(HandlerError),
}

/// Where a request stands.
pub enum Stage {
    AwaitingSha,
    AwaitingStatistics { sha: String, branch: String },
    Done,
}

/// A badge request in progress.
pub struct BadgeHandler {
    /// The host, decoded, with `.com` appended where it has no dot.
    pub domain: String,
    pub user: String,
    pub repo: String,
    /// `https://{domain}/{user}/{repo}`.
    pub url: String,
    pub options: BadgeOptions,
    /// Whether the statistics are asked for as JSON.
    pub json: bool,
    pub if_none_match: Option<IfNoneMatch>,
    pub stage: Stage,
}

impl BadgeHandler {
    /// Starts a request for the badge of `user/repo` on the host `raw_domain`
    /// (percent-encoded, as it stands in the path). Fails where the user's
    /// repositories are not served, or where the host is not valid UTF-8 once
    /// decoded; else asks for the commit of the requested branch.
    pub fn start(
        raw_domain: &str,
        user: &str,
        repo: &str,
        query: BadgeQuery,
        json: bool,
        if_none_match: Option<IfNoneMatch>,
        user_allowed: bool,
    ) -> (r: (BadgeHandler, Action))
        ensures
            options_of(query, r.0.options),
            r.0.user@ == user@,
            r.0.repo@ == repo@,
            r.0.json == json,
            r.0.if_none_match == if_none_match,
            !user_allowed ==> {
                &&& r.0.stage is Done
                &&& r.1 matches Action::Fail(HandlerError::UserNotAllowed)
            },
            user_allowed && percent_decode_text(raw_domain@) is None ==> {
                &&& r.0.stage is Done
                &&& r.1 matches Action::Fail(HandlerError::InvalidDomain)
            },
            user_allowed && percent_decode_text(raw_domain@) is Some ==> {
                &&& r.0.domain@ == normalized_domain(percent_decode_text(raw_domain@)->0)
                &&& r.0.url@ == repo_url_text(r.0.domain@, user@, repo@)
                &&& r.0.stage is AwaitingSha
                &&& r.1 matches Action::ResolveSha { domain, user: u, repo: p, branch } && domain@
                    == r.0.domain@ && u@ == user@ && p@ == repo@ && branch@ == r.0.options.branch@
            },
    {
        let options = BadgeOptions::from_query(query);
        let mut h = BadgeHandler {
            domain: String::new(),
            user: String::from_str(user),
            repo: String::from_str(repo),
            url: String::new(),
            options,
            json,
            if_none_match,
            stage: Stage::Done,
        };
        if !user_allowed {
            return (h, Action::Fail(HandlerError::UserNotAllowed));
        }
        let domain = match decode_domain(raw_domain) {
            Some(d) => d,
            None => {
                return (h, Action::Fail(HandlerError::InvalidDomain));
            },
        };
        h.url = repo_url(domain.as_str(), user, repo);
        let action = Action::ResolveSha {
            domain: domain.clone(),
            user: String::from_str(user),
            repo: String::from_str(repo),
            branch: h.options.branch.clone(),
        };
        h.domain = domain;
        h.stage = Stage::AwaitingSha;
        (h, action)
    }

    /// Takes the resolved commit, `hash#branch`, or the reason it could not
    /// be resolved. Fails where it could not, or where the text has no `#`;
    /// answers "not modified" where the request already holds the badge's
    /// entity tag; else asks for the statistics of that commit.
    pub fn on_sha_resolved(&mut self, resolved: Result<String, String>) -> (r: Action)
        requires
            old(self).stage is AwaitingSha,
        ensures
            final(self).domain == old(self).domain,
            final(self).user == old(self).user,
            final(self).repo == old(self).repo,
            final(self).url == old(self).url,
            final(self).options == old(self).options,
            final(self).json == old(self).json,
            final(self).if_none_match == old(self).if_none_match,
            match resolved {
                Err(m) => {
                    &&& final(self).stage is Done
                    &&& r matches Action::Fail(HandlerError::ResolveFailed { message })
                        && message@ == m@
                },
                Ok(s) => match split_once(s@, seq!['#']) {
                    None => {
                        &&& final(self).stage is Done
                        &&& r matches Action::Fail(HandlerError::InvalidShaResolve)
                    },
                    Some((sha, branch)) => if old(self).if_none_match matches Some(header)
                        && etag_listed(header, hash_joined(sha, branch)) {
                        &&& final(self).stage is Done
                        &&& r matches Action::NotModified { statistics_key }
                            && statistics_key@ == hash_joined(
                            hash_joined(old(self).url@, sha),
                            branch,
                        )
                    } else {
                        &&& final(self).stage matches Stage::AwaitingStatistics {
                            sha: s2,
                            branch: b2,
                        } && s2@ == sha && b2@ == branch
                        &&& r matches Action::FetchStatistics { url, sha: s3, branch: b3 } && url@
                            == old(self).url@ && s3@ == sha && b3@ == branch
                    },
                },
            },
    {
        let text = match resolved {
            Ok(s) => s,
            Err(m) => {
                self.stage = Stage::Done;
                return Action::Fail(HandlerError::ResolveFailed { message: m });
            },
        };
        let (sha, branch) = match split_hash_and_branch(text.as_str()) {
            Some(p) => p,
            None => {
                self.stage = Stage::Done;
                return Action::Fail(HandlerError::InvalidShaResolve);
            },
        };
        let found = match &self.if_none_match {
            Some(header) => {
                let tag = etag_identifier(sha.as_str(), branch.as_str());
                etag_found(header, &tag)
            },
            None => false,
        };
        if found {
            self.stage = Stage::Done;
            return Action::NotModified {
                statistics_key: repo_identifier(self.url.as_str(), sha.as_str(), branch.as_str()),
            };
        }
        let action = Action::FetchStatistics {
            url: self.url.clone(),
            sha: sha.clone(),
            branch: branch.clone(),
        };
        self.stage = Stage::AwaitingStatistics { sha, branch };
        action
    }

    /// Takes the line counts of the commit, ordered by code count, or the
    /// reason they could not be had. Fails where they could not; else
    /// answers with the statistics or the badge of the selected languages,
    /// tagged `hash#branch`.
    pub fn on_statistics(&mut self, counted: Result<Vec<LanguageStats>, String>) -> (r: Action)
        requires
            old(self).stage is AwaitingStatistics,
            counted matches Ok(v) ==> totals_fit(v@),
        ensures
            final(self).stage is Done,
            match counted {
                Err(m) => r matches Action::Fail(HandlerError::StatisticsFailed { message })
                    && message@ == m@,
                Ok(v) => {
                    let selected = selected_languages(v@, old(self).options.language_types@);
                    let o = old(self).options;
                    &&& r matches Action::Respond { plan, etag, languages }
                    &&& languages@ == selected
                    &&& old(self).stage matches Stage::AwaitingStatistics { sha, branch }
                        && etag@ == hash_joined(sha@, branch@)
                    &&& is_badge_plan(
                        plan,
                        old(self).json,
                        crate::languages::Totals {
                            code: sum_code(selected) as usize,
                            comments: sum_comments(selected) as usize,
                            blanks: sum_blanks(selected) as usize,
                            files: sum_files(selected) as usize,
                        },
                        o.category@,
                        o.label@,
                        o.style@,
                        o.color@,
                        o.logo@,
                        ranking_text(o.show_language, selected, o.language_rank),
                        o.no_label,
                    )
                },
            },
    {
        let (sha, branch) = match &self.stage {
            Stage::AwaitingStatistics { sha, branch } => (sha.clone(), branch.clone()),
            _ => (String::new(), String::new()),
        };
        self.stage = Stage::Done;
        let entries = match counted {
            Ok(v) => v,
            Err(m) => {
                return Action::Fail(HandlerError::StatisticsFailed { message: m });
            },
        };
        let ghost all = entries@;
        let selected = select_languages(entries, self.options.language_types.as_str());
        proof {
            lemma_selection_fits(all, self.options.language_types@);
        }
        let ranking = ranking_language(
            self.options.show_language,
            &selected,
            self.options.language_rank,
        );
        let t = totals(&selected);
        let plan = make_badge(
            self.json,
            &t,
            self.options.category.as_str(),
            self.options.label.as_str(),
            self.options.style.as_str(),
            self.options.color.as_str(),
            self.options.logo.as_str(),
            ranking.as_str(),
            self.options.no_label,
        );
        Action::Respond {
            plan,
            etag: etag_identifier(sha.as_str(), branch.as_str()),
            languages: selected,
        }
    }
}

} // verus!
