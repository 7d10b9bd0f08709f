//! Settings of the service: the port it listens on and the users whose
//! repositories it serves.
use vstd::prelude::*;
use crate::text::{chars_of, contains_string, parse_u16, parse_unsigned, split_chars, split_on, string_of, trim, trim_start, trimmed};

verus! {

/// The settings of the service.
#[derive(Clone)]
pub struct Config {
    /// The port to listen on.
    pub port: u16,
    /// The users whose repositories are served; every user's where empty.
    pub allowed_users: Vec<String>,
}

/// The port used where none is set.
pub open spec fn default_port_text() -> Seq<char> {
    "8000"@
}

/// The port that the setting `port` gives: the setting parsed as a `u16`,
/// `8000` where it is not set; nothing where it is not a valid port number.
pub open spec fn port_setting(port: Option<Seq<char>>) -> Option<nat> {
    match port {
        Some(p) => parse_unsigned(p, u16::MAX as nat),
        None => parse_unsigned(default_port_text(), u16::MAX as nat),
    }
}

/// The non-empty texts among the first `n` of `pieces`, each with
/// surrounding white space removed.
pub open spec fn trimmed_names(pieces: Seq<Seq<char>>, n: int) -> Set<Seq<char>>
    decreases n,
{
    if n <= 0 {
        Set::<Seq<char>>::empty()
    } else if trim(pieces[n - 1]).len() > 0 {
        trimmed_names(pieces, n - 1).insert(trim(pieces[n - 1]))
    } else {
        trimmed_names(pieces, n - 1)
    }
}

/// The users that a comma-separated list names: its pieces with surrounding
/// white space removed, the empty ones left out.
pub open spec fn user_names(list: Seq<char>) -> Set<Seq<char>> {
    trimmed_names(split_on(list, ','), split_on(list, ',').len() as int)
}

/// The texts of `names`.
pub open spec fn names_of(names: Seq<String>) -> Set<Seq<char>>
    decreases names.len(),
{
    if names.len() == 0 {
        Set::<Seq<char>>::empty()
    } else {
        names_of(names.drop_last()).insert(names.last()@)
    }
}

proof fn lemma_names_of_contains(names: Seq<String>, u: Seq<char>)
    ensures
        names_of(names).contains(u) <==> names.map_values(|n: String| n@).contains(u),
    decreases names.len(),
{
    if names.len() > 0 {
        lemma_names_of_contains(names.drop_last(), u);
        let all = names.map_values(|n: String| n@);
        let pre = names.drop_last().map_values(|n: String| n@);
        assert(pre =~= all.drop_last());
        if all.contains(u) && !pre.contains(u) {
            let k = choose|k: int| 0 <= k < all.len() && all[k] == u;
            if k < all.len() - 1 {
                assert(pre[k] == u);
            }
        }
        if pre.contains(u) {
            let k = choose|k: int| 0 <= k < pre.len() && pre[k] == u;
            assert(all[k] == u);
        }
        if names.last()@ == u {
            assert(all[all.len() - 1] == u);
        }
    }
}

/// The users that the setting `allowed` names; none where it is not set.
pub open spec fn allowed_setting(allowed: Option<Seq<char>>) -> Set<Seq<char>> {
    match allowed {
        Some(l) => user_names(l),
        None => Set::<Seq<char>>::empty(),
    }
}

impl Config {
    /// The users this configuration lists.
    pub open spec fn allowed(&self) -> Set<Seq<char>> {
        names_of(self.allowed_users@)
    }

    /// No user is listed twice and no listed name is empty.
    pub open spec fn well_formed(&self) -> bool {
        &&& forall|i: int, j: int|
            0 <= i < j < self.allowed_users@.len() ==> #[trigger] self.allowed_users@[i]@
                != #[trigger] self.allowed_users@[j]@
        &&& forall|i: int|
            0 <= i < self.allowed_users@.len() ==> #[trigger] self.allowed_users@[i]@.len() > 0
    }

    /// The configuration given by the settings `port` (the port to listen
    /// on, `8000` where unset) and `allowed_users` (a comma-separated list of
    /// users; all users where unset or empty). `None` where `port` is not a
    /// valid port number.
    pub fn from_settings(port: Option<&str>, allowed_users: Option<&str>) -> (r: Option<Config>)
        ensures
            match port_setting(
                match port {
                    Some(p) => Some(p@),
                    None => None,
                },
            ) {
                Some(p) => r matches Some(c) && c.port == p && c.well_formed() && c.allowed()
                    == allowed_setting(
                    match allowed_users {
                        Some(a) => Some(a@),
                        None => None,
                    },
                ),
                None => r is None,
            },
    {
        let port_chars = match port {
            Some(p) => chars_of(p),
            None => chars_of("8000"),
        };
        let port = match parse_u16(port_chars.as_slice()) {
            Some(p) => p,
            None => {
                return None;
            },
        };
        let list = match allowed_users {
            Some(a) => chars_of(a),
            None => Vec::new(),
        };
        let ghost spec_list = list@;
        let pieces = split_chars(list.as_slice(), ',');
        let ghost sp = split_on(spec_list, ',');
        let mut users: Vec<String> = Vec::new();
        let mut i: usize = 0;
        while i < pieces.len()
            invariant
                i <= pieces@.len() == sp.len(),
                forall|k: int| 0 <= k < pieces@.len() ==> #[trigger] pieces@[k]@ == sp[k],
                forall|a: int, b: int|
                    0 <= a < b < users@.len() ==> #[trigger] users@[a]@ != #[trigger] users@[b]@,
                forall|a: int| 0 <= a < users@.len() ==> #[trigger] users@[a]@.len() > 0,
                names_of(users@) == trimmed_names(sp, i as int),
            decreases pieces@.len() - i,
        {
            let ghost before = users@;
            let t = trimmed(pieces[i].as_slice());
            assert(t@ == trim(sp[i as int]));
            if t.len() > 0 {
                let name = string_of(t.as_slice());
                if !contains_string(&users, &name) {
                    users.push(name);
                    proof {
                        assert(users@.drop_last() =~= before);
                        assert forall|a: int, b: int|
                            0 <= a < b < users@.len() implies #[trigger] users@[a]@
                            != #[trigger] users@[b]@ by {
                            if b == users@.len() - 1 {
                                assert(before.map_values(|n: String| n@)[a] == users@[a]@);
                            }
                        }
                    }
                } else {
                    proof {
                        lemma_names_of_contains(users@, name@);
                        assert(names_of(users@).insert(name@) =~= names_of(users@));
                    }
                }
            }
            i = i + 1;
        }
        let c = Config { port, allowed_users: users };
        proof {
            if allowed_users is None {
                assert(spec_list =~= Seq::<char>::empty());
                assert(sp =~= seq![Seq::<char>::empty()]);
                assert(trim_start(Seq::<char>::empty()) =~= Seq::<char>::empty());
                assert(trim(Seq::<char>::empty()) =~= Seq::<char>::empty());
                assert(trimmed_names(sp, 0) =~= Set::<Seq<char>>::empty());
            }
        }
        Some(c)
    }

    /// Whether the repositories of `user` are served: always where no user
    /// is listed, else where `user` is listed.
    pub fn is_user_allowed(&self, user: &str) -> (r: bool)
        ensures
            r == (self.allowed_users@.len() == 0 || self.allowed().contains(user@)),
    {
        if self.allowed_users.len() == 0 {
            return true;
        }
        let name = String::from_str(user);
        let r = contains_string(&self.allowed_users, &name);
        proof {
            lemma_names_of_contains(self.allowed_users@, user@);
        }
        r
    }
}

/// A configuration that names no user lists no user, so that it serves
/// every user.
pub proof fn law_no_named_user_serves_everyone(c: Config)
    requires
        c.allowed() == Set::<Seq<char>>::empty(),
    ensures
        c.allowed_users@.len() == 0,
{
    if c.allowed_users@.len() > 0 {
        let s = c.allowed_users@;
        assert(s.map_values(|n: String| n@)[0] == s[0]@);
        lemma_names_of_contains(s, s[0]@);
        assert(c.allowed().contains(s[0]@));
    }
}

/// The total length of the texts of `names`.
pub open spec fn names_length(names: Seq<String>) -> nat
    decreases names.len(),
{
    if names.len() == 0 {
        0
    } else {
        names_length(names.drop_last()) + names.last()@.len()
    }
}

proof fn lemma_listed_names_are_short(names: Seq<String>, u: Seq<char>)
    requires
        names_of(names).contains(u),
    ensures
        u.len() <= names_length(names),
    decreases names.len(),
{
    if names.len() > 0 && u != names.last()@ {
        lemma_listed_names_are_short(names.drop_last(), u);
    }
}

/// Every user is served exactly where no user is listed: a non-empty list
/// shuts out some user.
pub proof fn law_every_user_served_iff_none_listed(c: Config)
    ensures
        (forall|u: Seq<char>| c.allowed_users@.len() == 0 || #[trigger] c.allowed().contains(u))
            <==> c.allowed_users@.len() == 0,
{
    if c.allowed_users@.len() > 0 {
        let n = names_length(c.allowed_users@);
        let outsider = Seq::new(n + 1, |i: int| 'x');
        if c.allowed().contains(outsider) {
            lemma_listed_names_are_short(c.allowed_users@, outsider);
        }
        assert(!c.allowed().contains(outsider));
    }
}

} // verus!
