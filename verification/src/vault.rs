//! The entry tree: an ordered, named, recursively nested structure of groups
//! holding entries. `get_entries` flattens it depth-first into addressable
//! records, `find_entry` locates the first record whose full path ends with a
//! query, and `show_entry` renders an entry's non-secret fields.
//!
//! The tree is this library's own model of the vault's contents; the
//! encrypted container is opened and saved by an external collaborator, and
//! the front end converts between the collaborator's node types and these.

use vstd::prelude::*;

use crate::pwd::Pwd;

verus! {

/// One record of the vault: title, username, password, URL, free-form note,
/// and an optional raw TOTP payload (bare secret or otpauth URI). A missing
/// string field is the empty string.
#[derive(Debug, PartialEq, Eq)]
pub struct Entry {
    pub title: String,
    pub username: String,
    pub password: String,
    pub url: String,
    pub notes: String,
    pub otp: Option<String>,
}

/// A group's child: either an entry or a nested group.
#[derive(Debug, PartialEq, Eq)]
pub enum Node {
    Entry(Entry),
    Group(Group),
}

/// A named container of entries and nested groups, in stored order.
#[derive(Debug, PartialEq, Eq)]
pub struct Group {
    pub name: String,
    pub children: Vec<Node>,
}

/// The mathematical value of an entry: each field as its character sequence.
pub struct EntryModel {
    pub title: Seq<char>,
    pub username: Seq<char>,
    pub password: Seq<char>,
    pub url: Seq<char>,
    pub notes: Seq<char>,
    pub otp: Option<Seq<char>>,
}

pub open spec fn entry_model(e: Entry) -> EntryModel {
    EntryModel {
        title: e.title@,
        username: e.username@,
        password: e.password@,
        url: e.url@,
        notes: e.notes@,
        otp: match e.otp {
            Some(s) => Some(s@),
            None => None,
        },
    }
}

impl Clone for Entry {
    fn clone(&self) -> (r: Self)
        ensures
            entry_model(r) == entry_model(*self),
    {
        Entry {
            title: self.title.clone(),
            username: self.username.clone(),
            password: self.password.clone(),
            url: self.url.clone(),
            notes: self.notes.clone(),
            otp: match &self.otp {
                Some(s) => Some(s.clone()),
                None => None,
            },
        }
    }
}

/// An entry paired with the slash-delimited path of the groups above it,
/// from the tree root to (but not including) the entry's own title.
#[derive(Debug, PartialEq, Eq)]
pub struct WrappedEntry {
    pub path: String,
    pub entry: Entry,
}

/// The mathematical value of a flattened record.
pub struct FlatRec {
    pub path: Seq<char>,
    pub entry: EntryModel,
}

pub open spec fn wrapped_model(w: WrappedEntry) -> FlatRec {
    FlatRec { path: w.path@, entry: entry_model(w.entry) }
}

pub open spec fn wrapped_models(s: Seq<WrappedEntry>) -> Seq<FlatRec> {
    s.map_values(|w: WrappedEntry| wrapped_model(w))
}

impl Clone for WrappedEntry {
    fn clone(&self) -> (r: Self)
        ensures
            wrapped_model(r) == wrapped_model(*self),
    {
        WrappedEntry { path: self.path.clone(), entry: self.entry.clone() }
    }
}

/// The full display path of a record: its group path, a slash, its title.
pub open spec fn rec_full_path(r: FlatRec) -> Seq<char> {
    r.path + seq!['/'] + r.entry.title
}

/// The records contributed by the entries directly inside a group whose
/// path is `here`, in stored order.
pub open spec fn own_entries(ns: Seq<Node>, here: Seq<char>) -> Seq<FlatRec>
    decreases ns.len(),
{
    if ns.len() == 0 {
        Seq::empty()
    } else {
        (match ns[0] {
            Node::Entry(e) => seq![FlatRec { path: here, entry: entry_model(e) }],
            Node::Group(_) => Seq::empty(),
        }) + own_entries(ns.drop_first(), here)
    }
}

/// The records contributed by the child groups, each flattened in turn.
pub open spec fn child_groups(ns: Seq<Node>, here: Seq<char>) -> Seq<FlatRec>
    decreases ns,
{
    if ns.len() == 0 {
        Seq::empty()
    } else {
        (match ns[0] {
            Node::Entry(_) => Seq::empty(),
            Node::Group(g) => flat_records(g, here),
        }) + child_groups(ns.drop_first(), here)
    }
}

/// Depth-first, preorder flattening: a group's own entries come before its
/// child groups are recursed into, and every record's path extends the
/// caller's prefix with `/` and the group's name.
pub open spec fn flat_records(g: Group, prefix: Seq<char>) -> Seq<FlatRec>
    decreases g,
{
    let here = prefix + seq!['/'] + g.name@;
    own_entries(g.children@, here) + child_groups(g.children@, here)
}

proof fn lemma_own_entries_push(ns: Seq<Node>, x: Node, here: Seq<char>)
    ensures
        own_entries(ns.push(x), here) == own_entries(ns, here) + (match x {
            Node::Entry(e) => seq![FlatRec { path: here, entry: entry_model(e) }],
            Node::Group(_) => Seq::<FlatRec>::empty(),
        }),
    decreases ns.len(),
{
    if ns.len() == 0 {
        assert(ns.push(x).drop_first() =~= ns);
        assert(own_entries(ns, here) + (match x {
            Node::Entry(e) => seq![FlatRec { path: here, entry: entry_model(e) }],
            Node::Group(_) => Seq::<FlatRec>::empty(),
        }) =~= own_entries(ns.push(x), here));
    } else {
        assert(ns.push(x).drop_first() =~= ns.drop_first().push(x));
        lemma_own_entries_push(ns.drop_first(), x, here);
        assert(own_entries(ns.push(x), here) =~= own_entries(ns, here) + (match x {
            Node::Entry(e) => seq![FlatRec { path: here, entry: entry_model(e) }],
            Node::Group(_) => Seq::<FlatRec>::empty(),
        }));
    }
}

proof fn lemma_child_groups_push(ns: Seq<Node>, x: Node, here: Seq<char>)
    ensures
        child_groups(ns.push(x), here) == child_groups(ns, here) + (match x {
            Node::Entry(_) => Seq::<FlatRec>::empty(),
            Node::Group(g) => flat_records(g, here),
        }),
    decreases ns.len(),
{
    if ns.len() == 0 {
        assert(ns.push(x).drop_first() =~= ns);
        assert(child_groups(ns, here) + (match x {
            Node::Entry(_) => Seq::<FlatRec>::empty(),
            Node::Group(g) => flat_records(g, here),
        }) =~= child_groups(ns.push(x), here));
    } else {
        assert(ns.push(x).drop_first() =~= ns.drop_first().push(x));
        lemma_child_groups_push(ns.drop_first(), x, here);
        assert(child_groups(ns.push(x), here) =~= child_groups(ns, here) + (match x {
            Node::Entry(_) => Seq::<FlatRec>::empty(),
            Node::Group(g) => flat_records(g, here),
        }));
    }
}

/// Flattens the tree under `group`, prefixing every record's path with
/// `path`, then `/`, then the group's name. The result is a pure function
/// of the tree and the prefix, so two runs yield the same ordered output.
pub fn get_entries(group: &Group, path: &str) -> (r: Vec<WrappedEntry>)
    ensures
        wrapped_models(r@) == flat_records(*group, path@),
    decreases *group,
{
    let ghost g = *group;
    proof {
        reveal_strlit("/");
        assert("/"@ =~= seq!['/']);
    }
    let mut here = path.to_owned();
    here.append("/");
    here.append(group.name.as_str());
    let ghost here_chars = here@;

    let mut out: Vec<WrappedEntry> = Vec::new();
    let n = group.children.len();
    for i in 0..n
        invariant
            n == g.children@.len(),
            group.children@ == g.children@,
            here@ == here_chars,
            wrapped_models(out@) == own_entries(g.children@.take(i as int), here_chars),
    {
        let ghost pre = out@;
        match &group.children[i] {
            Node::Entry(e) => {
                out.push(WrappedEntry { path: here.clone(), entry: e.clone() });
            },
            Node::Group(_) => {
            },
        }
        proof {
            assert(g.children@.take(i + 1) =~= g.children@.take(i as int).push(g.children@[i as int]));
            lemma_own_entries_push(g.children@.take(i as int), g.children@[i as int], here_chars);
            assert(wrapped_models(out@) =~= own_entries(g.children@.take(i + 1), here_chars));
        }
    }
    proof {
        assert(g.children@.take(n as int) =~= g.children@);
    }

    for i in 0..n
        invariant
            n == g.children@.len(),
            group.children@ == g.children@,
            here@ == here_chars,
            wrapped_models(out@) == own_entries(g.children@, here_chars) + child_groups(
                g.children@.take(i as int),
                here_chars,
            ),
    {
        let ghost pre = out@;
        match &group.children[i] {
            Node::Entry(_) => {
            },
            Node::Group(sub) => {
                proof {
                    assert(g.children@[i as int] == Node::Group(*sub));
                }
                let mut rs = get_entries(sub, here.as_str());
                let ghost rsv = rs@;
                out.append(&mut rs);
                proof {
                    assert(out@ == pre + rsv);
                    assert(wrapped_models(pre + rsv) =~= wrapped_models(pre) + wrapped_models(
                        rsv,
                    ));
                }
            },
        }
        proof {
            assert(g.children@.take(i + 1) =~= g.children@.take(i as int).push(g.children@[i as int]));
            lemma_child_groups_push(g.children@.take(i as int), g.children@[i as int], here_chars);
            assert(wrapped_models(out@) =~= own_entries(g.children@, here_chars) + child_groups(
                g.children@.take(i + 1),
                here_chars,
            ));
        }
    }
    proof {
        assert(g.children@.take(n as int) =~= g.children@);
    }
    out
}

pub open spec fn seq_starts_with(s: Seq<char>, prefix: Seq<char>) -> bool {
    prefix.len() <= s.len() && s.subrange(0, prefix.len() as int) == prefix
}

pub open spec fn seq_ends_with(s: Seq<char>, suffix: Seq<char>) -> bool {
    suffix.len() <= s.len() && s.subrange(s.len() - suffix.len(), s.len() as int) == suffix
}

proof fn lemma_starts_with_weaken(s: Seq<char>, p: Seq<char>, q: Seq<char>)
    requires
        seq_starts_with(s, p + q),
    ensures
        seq_starts_with(s, p),
{
    assert forall|j: int| 0 <= j < p.len() implies s.subrange(0, p.len() as int)[j] == p[j] by {
        assert(s.subrange(0, (p + q).len() as int)[j] == (p + q)[j]);
    }
    assert(s.subrange(0, p.len() as int) =~= p);
}

proof fn lemma_own_entries_paths(ns: Seq<Node>, here: Seq<char>)
    ensures
        forall|i: int|
            0 <= i < own_entries(ns, here).len() ==> #[trigger] own_entries(ns, here)[i].path
                == here,
    decreases ns.len(),
{
    if ns.len() > 0 {
        lemma_own_entries_paths(ns.drop_first(), here);
    }
}

proof fn lemma_child_groups_paths(ns: Seq<Node>, here: Seq<char>)
    ensures
        forall|i: int|
            0 <= i < child_groups(ns, here).len() ==> seq_starts_with(
                #[trigger] child_groups(ns, here)[i].path,
                here,
            ),
    decreases ns,
{
    if ns.len() > 0 {
        lemma_child_groups_paths(ns.drop_first(), here);
        match ns[0] {
            Node::Entry(_) => {
            },
            Node::Group(g) => {
                lemma_flat_records_paths(g, here);
                assert forall|i: int| 0 <= i < flat_records(g, here).len() implies seq_starts_with(
                    #[trigger] flat_records(g, here)[i].path,
                    here,
                ) by {
                    assert(here + (seq!['/'] + g.name@) =~= here + seq!['/'] + g.name@);
                    lemma_starts_with_weaken(
                        flat_records(g, here)[i].path,
                        here,
                        seq!['/'] + g.name@,
                    );
                }
            },
        }
    }
}

/// Law: flattening is deterministic — `get_entries` returns exactly the
/// pure function `flat_records` of the tree and prefix — and every record
/// lies under the flattened group: its path begins with the prefix, `/`,
/// and the group's name, and its full display path is its path, `/`, and
/// its title (`rec_full_path`).
pub proof fn lemma_flat_records_paths(g: Group, prefix: Seq<char>)
    ensures
        forall|i: int|
            0 <= i < flat_records(g, prefix).len() ==> seq_starts_with(
                #[trigger] flat_records(g, prefix)[i].path,
                prefix + seq!['/'] + g.name@,
            ),
    decreases g,
{
    let here = prefix + seq!['/'] + g.name@;
    lemma_own_entries_paths(g.children@, here);
    lemma_child_groups_paths(g.children@, here);
    assert forall|i: int| 0 <= i < flat_records(g, prefix).len() implies seq_starts_with(
        #[trigger] flat_records(g, prefix)[i].path,
        here,
    ) by {
        let own = own_entries(g.children@, here);
        if i < own.len() {
            assert(flat_records(g, prefix)[i] == own[i]);
            assert(own[i].path == here);
            assert(here.subrange(0, here.len() as int) =~= here);
        } else {
            assert(flat_records(g, prefix)[i] == child_groups(g.children@, here)[i - own.len()]);
        }
    }
}

/// The prefix extended by `/` and each of `names` in turn: the
/// slash-joined group chain.
pub open spec fn chain_join(prefix: Seq<char>, names: Seq<Seq<char>>) -> Seq<char>
    decreases names.len(),
{
    if names.len() == 0 {
        prefix
    } else {
        chain_join(prefix + seq!['/'] + names[0], names.drop_first())
    }
}

/// Whether an entry with model `e` sits under `g` through exactly the
/// chain of nested child groups named `names`, in that order (an empty
/// chain: directly among `g`'s own entries).
pub open spec fn entry_under_chain(g: Group, names: Seq<Seq<char>>, e: EntryModel) -> bool
    decreases g,
{
    if names.len() == 0 {
        exists|i: int|
            {
                &&& 0 <= i < g.children@.len()
                &&& #[trigger] g.children@[i] matches Node::Entry(en)
                &&& entry_model(en) == e
            }
    } else {
        exists|i: int|
            {
                &&& 0 <= i < g.children@.len()
                &&& #[trigger] g.children@[i] matches Node::Group(sub)
                &&& sub.name@ == names[0]
                &&& entry_under_chain(sub, names.drop_first(), e)
            }
    }
}

/// That record `rec` is witnessed under the children `ns`: child `j` is a
/// group through which a chain named `names` reaches the record's entry,
/// and the record's path is the corresponding join.
spec fn chain_witness(ns: Seq<Node>, here: Seq<char>, rec: FlatRec, j: int, names: Seq<Seq<char>>) -> bool {
    &&& 0 <= j < ns.len()
    &&& ns[j] matches Node::Group(sub)
    &&& rec.path == chain_join(here + seq!['/'] + sub.name@, names)
    &&& entry_under_chain(sub, names, rec.entry)
}

spec fn chain_witnessed(ns: Seq<Node>, here: Seq<char>, rec: FlatRec) -> bool {
    exists|j: int, names: Seq<Seq<char>>| chain_witness(ns, here, rec, j, names)
}

/// That record `rec` is an entry reached from `g` through some chain of
/// nested child groups, its path the prefix, `g`'s name and the chain's
/// names joined by `/`.
pub open spec fn reaches_through_chain(g: Group, prefix: Seq<char>, rec: FlatRec) -> bool {
    exists|names: Seq<Seq<char>>|
        rec.path == chain_join(prefix + seq!['/'] + g.name@, names) && entry_under_chain(
            g,
            names,
            rec.entry,
        )
}

proof fn lemma_own_entries_chain(ns: Seq<Node>, here: Seq<char>)
    ensures
        forall|i: int|
            0 <= i < own_entries(ns, here).len() ==> exists|j: int|
                {
                    &&& 0 <= j < ns.len()
                    &&& #[trigger] ns[j] matches Node::Entry(en)
                    &&& entry_model(en) == (#[trigger] own_entries(ns, here)[i]).entry
                },
    decreases ns.len(),
{
    if ns.len() > 0 {
        let nsd = ns.drop_first();
        lemma_own_entries_chain(nsd, here);
        assert forall|i: int| 0 <= i < own_entries(ns, here).len() implies exists|j: int|
            {
                &&& 0 <= j < ns.len()
                &&& #[trigger] ns[j] matches Node::Entry(en)
                &&& entry_model(en) == (#[trigger] own_entries(ns, here)[i]).entry
            } by {
            match ns[0] {
                Node::Entry(e0) => {
                    if i == 0 {
                        assert(own_entries(ns, here)[0].entry == entry_model(e0));
                        assert(ns[0] matches Node::Entry(en) && entry_model(en) == own_entries(
                            ns,
                            here,
                        )[0].entry);
                    } else {
                        assert(own_entries(ns, here)[i] == own_entries(nsd, here)[i - 1]);
                        let j = choose|j: int|
                            {
                                &&& 0 <= j < nsd.len()
                                &&& #[trigger] nsd[j] matches Node::Entry(en)
                                &&& entry_model(en) == own_entries(nsd, here)[i - 1].entry
                            };
                        assert(ns[j + 1] == nsd[j]);
                    }
                },
                Node::Group(_) => {
                    assert(own_entries(ns, here)[i] == own_entries(nsd, here)[i]);
                    let j = choose|j: int|
                        {
                            &&& 0 <= j < nsd.len()
                            &&& #[trigger] nsd[j] matches Node::Entry(en)
                            &&& entry_model(en) == own_entries(nsd, here)[i].entry
                        };
                    assert(ns[j + 1] == nsd[j]);
                },
            }
        }
    }
}

proof fn lemma_child_groups_chain(ns: Seq<Node>, here: Seq<char>)
    ensures
        forall|i: int|
            0 <= i < child_groups(ns, here).len() ==> chain_witnessed(
                ns,
                here,
                #[trigger] child_groups(ns, here)[i],
            ),
    decreases ns,
{
    if ns.len() > 0 {
        let nsd = ns.drop_first();
        lemma_child_groups_chain(nsd, here);
        match ns[0] {
            Node::Group(sub0) => {
                lemma_flat_records_chain(sub0, here);
            },
            Node::Entry(_) => {
            },
        }
        assert forall|i: int| 0 <= i < child_groups(ns, here).len() implies chain_witnessed(
            ns,
            here,
            #[trigger] child_groups(ns, here)[i],
        ) by {
            let rec = child_groups(ns, here)[i];
            match ns[0] {
                Node::Group(sub0) => {
                    let head = flat_records(sub0, here);
                    if i < head.len() {
                        assert(rec == head[i]);
                        assert(reaches_through_chain(sub0, here, head[i]));
                        let names = choose|names: Seq<Seq<char>>|
                            head[i].path == chain_join(here + seq!['/'] + sub0.name@, names)
                                && entry_under_chain(sub0, names, head[i].entry);
                        assert(chain_witness(ns, here, rec, 0, names));
                    } else {
                        assert(rec == child_groups(nsd, here)[i - head.len()]);
                        assert(chain_witnessed(nsd, here, child_groups(nsd, here)[i - head.len()]));
                        let (j, names) = choose|j: int, names: Seq<Seq<char>>|
                            chain_witness(nsd, here, rec, j, names);
                        assert(ns[j + 1] == nsd[j]);
                        assert(chain_witness(ns, here, rec, j + 1, names));
                    }
                },
                Node::Entry(_) => {
                    assert(rec == child_groups(nsd, here)[i]);
                    assert(chain_witnessed(nsd, here, child_groups(nsd, here)[i]));
                    let (j, names) = choose|j: int, names: Seq<Seq<char>>|
                        chain_witness(nsd, here, rec, j, names);
                    assert(ns[j + 1] == nsd[j]);
                    assert(chain_witness(ns, here, rec, j + 1, names));
                },
            }
        }
    }
}

/// Law: each flattened record is an entry reached from the flattened group
/// through a chain of nested child groups, and its path is exactly the
/// prefix, the group's name and that chain's names joined by `/` — no
/// group name skipped, reordered or repeated. Together with
/// `rec_full_path`, a record's full display path is that joined chain
/// followed by `/` and its title.
pub proof fn lemma_flat_records_chain(g: Group, prefix: Seq<char>)
    ensures
        forall|i: int|
            0 <= i < flat_records(g, prefix).len() ==> reaches_through_chain(
                g,
                prefix,
                #[trigger] flat_records(g, prefix)[i],
            ),
    decreases g,
{
    let here = prefix + seq!['/'] + g.name@;
    lemma_own_entries_paths(g.children@, here);
    lemma_own_entries_chain(g.children@, here);
    lemma_child_groups_chain(g.children@, here);
    let own = own_entries(g.children@, here);
    assert forall|i: int| 0 <= i < flat_records(g, prefix).len() implies reaches_through_chain(
        g,
        prefix,
        #[trigger] flat_records(g, prefix)[i],
    ) by {
        let rec = flat_records(g, prefix)[i];
        if i < own.len() {
            assert(rec == own[i]);
            assert(rec.path == here);
            let empty_chain = Seq::<Seq<char>>::empty();
            assert(chain_join(here, empty_chain) == here);
            let j = choose|j: int|
                {
                    &&& 0 <= j < g.children@.len()
                    &&& #[trigger] g.children@[j] matches Node::Entry(en)
                    &&& entry_model(en) == own[i].entry
                };
            assert(entry_under_chain(g, empty_chain, rec.entry));
            assert(rec.path == chain_join(here, empty_chain) && entry_under_chain(
                g,
                empty_chain,
                rec.entry,
            ));
        } else {
            let k = i - own.len();
            assert(rec == child_groups(g.children@, here)[k]);
            assert(chain_witnessed(g.children@, here, child_groups(g.children@, here)[k]));
            let (j, names2) = choose|j: int, names2: Seq<Seq<char>>|
                chain_witness(g.children@, here, rec, j, names2);
            match g.children@[j] {
                Node::Group(sub) => {
                    let full = seq![sub.name@] + names2;
                    assert(full[0] == sub.name@);
                    assert(full.drop_first() =~= names2);
                    assert(chain_join(here, full) == chain_join(
                        here + seq!['/'] + sub.name@,
                        names2,
                    ));
                    assert(entry_under_chain(g, full, rec.entry));
                    assert(rec.path == chain_join(here, full) && entry_under_chain(
                        g,
                        full,
                        rec.entry,
                    ));
                },
                Node::Entry(_) => {
                    assert(false);
                },
            }
        }
    }
}

/// Whether `s` ends with `suffix`, compared character by character.
fn str_ends_with(s: &str, suffix: &str) -> (r: bool)
    ensures
        r == seq_ends_with(s@, suffix@),
{
    let n = s.unicode_len();
    let m = suffix.unicode_len();
    if m > n {
        return false;
    }
    let off = n - m;
    for i in 0..m
        invariant
            m <= n,
            n == s@.len(),
            m == suffix@.len(),
            off == n - m,
            forall|j: int| 0 <= j < i ==> s@[off + j] == suffix@[j],
    {
        if s.get_char(off + i) != suffix.get_char(i) {
            proof {
                if seq_ends_with(s@, suffix@) {
                    assert(s@.subrange(n - m, n as int)[i as int] == suffix@[i as int]);
                }
            }
            return false;
        }
    }
    proof {
        assert(s@.subrange(n - m, n as int) =~= suffix@);
    }
    true
}

/// The first record of `rs` whose full display path ends with `q`.
pub open spec fn first_match(rs: Seq<FlatRec>, q: Seq<char>) -> Option<FlatRec>
    decreases rs.len(),
{
    if rs.len() == 0 {
        None
    } else if seq_ends_with(rec_full_path(rs[0]), q) {
        Some(rs[0])
    } else {
        first_match(rs.drop_first(), q)
    }
}

/// Law: the lookup is a path-suffix match — it yields a record exactly when
/// some record's full display path ends with the query, so a bare title, a
/// partial path suffix, and the full path of one entry all resolve, and a
/// query matching no record resolves to nothing.
pub proof fn lemma_first_match_iff_suffix(rs: Seq<FlatRec>, q: Seq<char>)
    ensures
        (first_match(rs, q) is Some) <==> exists|i: int|
            0 <= i < rs.len() && seq_ends_with(rec_full_path(#[trigger] rs[i]), q),
    decreases rs.len(),
{
    if rs.len() > 0 {
        lemma_first_match_iff_suffix(rs.drop_first(), q);
        if seq_ends_with(rec_full_path(rs[0]), q) {
            assert(seq_ends_with(rec_full_path(rs[0]), q));
        } else {
            if first_match(rs, q) is Some {
                let j = choose|j: int|
                    0 <= j < rs.drop_first().len() && seq_ends_with(
                        rec_full_path(#[trigger] rs.drop_first()[j]),
                        q,
                    );
                assert(rs.drop_first()[j] == rs[j + 1]);
                assert(seq_ends_with(rec_full_path(rs[j + 1]), q));
            }
            if exists|i: int|
                0 <= i < rs.len() && seq_ends_with(rec_full_path(#[trigger] rs[i]), q) {
                let i = choose|i: int|
                    0 <= i < rs.len() && seq_ends_with(rec_full_path(#[trigger] rs[i]), q);
                assert(i != 0);
                assert(rs.drop_first()[i - 1] == rs[i]);
                assert(seq_ends_with(rec_full_path(rs.drop_first()[i - 1]), q));
            }
        }
    }
}

/// The records of the whole tree, as `find_entry` searches them: flattened
/// from the root with the empty prefix.
pub open spec fn tree_records(g: Group) -> Seq<FlatRec> {
    flat_records(g, Seq::empty())
}

/// Path-suffix lookup: returns the first record (in `get_entries` order)
/// whose `"{path}/{title}"` ends with `query` — so a bare title, a partial
/// path suffix, or a full path all resolve — or nothing when no record
/// matches.
pub fn find_entry(query: &str, group: &Group) -> (r: Option<Entry>)
    ensures
        match r {
            Some(e) => first_match(tree_records(*group), query@) is Some && entry_model(e)
                == first_match(tree_records(*group), query@).unwrap().entry,
            None => first_match(tree_records(*group), query@) is None,
        },
{
    proof {
        reveal_strlit("");
        assert(""@ =~= Seq::<char>::empty());
        reveal_strlit("/");
        assert("/"@ =~= seq!['/']);
    }
    let entries = get_entries(group, "");
    let ghost flat = tree_records(*group);
    proof {
        assert(flat.skip(0) =~= flat);
    }
    let n = entries.len();
    for i in 0..n
        invariant
            n == entries@.len(),
            flat == tree_records(*group),
            wrapped_models(entries@) == flat,
            first_match(flat, query@) == first_match(flat.skip(i as int), query@),
            "/"@ =~= seq!['/'],
    {
        let w = &entries[i];
        let mut full = w.path.clone();
        full.append("/");
        full.append(w.entry.title.as_str());
        proof {
            assert(wrapped_models(entries@)[i as int] == wrapped_model(entries@[i as int]));
            assert(full@ == rec_full_path(flat[i as int]));
            assert(flat.skip(i as int)[0] == flat[i as int]);
        }
        if str_ends_with(full.as_str(), query) {
            proof {
                assert(first_match(flat.skip(i as int), query@) == Some(flat[i as int]));
                assert(first_match(flat, query@) == Some(flat[i as int]));
                assert(*w == entries@[i as int]);
                assert(entry_model(entries@[i as int].entry) == flat[i as int].entry);
            }
            let found = w.entry.clone();
            proof {
                assert(entry_model(found) == flat[i as int].entry);
            }
            return Some(found);
        }
        proof {
            assert(flat.skip(i as int).drop_first() =~= flat.skip(i + 1));
        }
    }
    proof {
        assert(flat.skip(n as int) =~= Seq::<FlatRec>::empty());
    }
    None
}

/// Addressable access to a flattened record: its full display path, its
/// entry, its bare title, and whether it carries a TOTP payload.
pub trait EntryPath {
    spec fn spec_entry_path(&self) -> Seq<char>;

    spec fn spec_entry(&self) -> EntryModel;

    fn entry_path(&self) -> (r: String)
        ensures
            r@ == self.spec_entry_path(),
    ;

    fn get_entry(&self) -> (r: &Entry)
        ensures
            entry_model(*r) == self.spec_entry(),
    ;

    fn get_title(&self) -> (r: String)
        ensures
            r@ == self.spec_entry().title,
    ;

    fn has_totp(&self) -> (r: bool)
        ensures
            r == (self.spec_entry().otp is Some),
    ;
}

impl EntryPath for WrappedEntry {
    open spec fn spec_entry_path(&self) -> Seq<char> {
        rec_full_path(wrapped_model(*self))
    }

    open spec fn spec_entry(&self) -> EntryModel {
        entry_model(self.entry)
    }

    fn entry_path(&self) -> (r: String) {
        proof {
            reveal_strlit("/");
            assert("/"@ =~= seq!['/']);
        }
        let mut r = self.path.clone();
        r.append("/");
        r.append(self.entry.title.as_str());
        r
    }

    fn get_entry(&self) -> (r: &Entry) {
        &self.entry
    }

    fn get_title(&self) -> (r: String) {
        self.entry.title.clone()
    }

    fn has_totp(&self) -> (r: bool) {
        self.entry.otp.is_some()
    }
}

/// The rendering of an entry's non-secret fields, one per line.
pub open spec fn spec_show_entry(e: EntryModel) -> Seq<char> {
    "Title: "@ + e.title + "\nUsername: "@ + e.username + "\nUrl: "@ + e.url + "\nNote: "@
        + e.notes
}

/// Renders the entry's title, username, URL and note — never its password
/// or TOTP secret.
pub fn show_entry(entry: &Entry) -> (r: String)
    ensures
        r@ == spec_show_entry(entry_model(*entry)),
{
    let mut r = "Title: ".to_owned();
    r.append(entry.title.as_str());
    r.append("\nUsername: ");
    r.append(entry.username.as_str());
    r.append("\nUrl: ");
    r.append(entry.url.as_str());
    r.append("\nNote: ");
    r.append(entry.notes.as_str());
    r
}

/// What a command does once the vault is open: disclose the entry a query
/// located, report failure, or fall back to the interactive picker.
pub enum LookupOutcome {
    Found(Entry),
    NeedsPicker,
    NotFound,
    NoSingleMatch,
}

/// The decision a disclosing command takes after opening the vault: a query
/// that locates a record discloses it; otherwise, when interaction is
/// suppressed the command fails with `Not found`; when standard output is
/// not a terminal no picker can be offered, so it fails with the
/// single-match error; otherwise the picker is offered.
pub fn resolve_lookup(
    root: &Group,
    query: &Option<String>,
    no_interaction: bool,
    stdout_is_tty: bool,
) -> (r: LookupOutcome)
    ensures
        ({
            let hit = match *query {
                Some(q) => first_match(tree_records(*root), q@),
                None => None,
            };
            match hit {
                Some(m) => r matches LookupOutcome::Found(e) && entry_model(e) == m.entry,
                None => if no_interaction {
                    r is NotFound
                } else if !stdout_is_tty {
                    r is NoSingleMatch
                } else {
                    r is NeedsPicker
                },
            }
        }),
{
    if let Some(q) = query {
        if let Some(e) = find_entry(q.as_str(), root) {
            return LookupOutcome::Found(e);
        }
    }
    if no_interaction {
        LookupOutcome::NotFound
    } else if !stdout_is_tty {
        LookupOutcome::NoSingleMatch
    } else {
        LookupOutcome::NeedsPicker
    }
}

/// The components from which the vault collaborator builds its composite
/// key: an optional password and the optional raw bytes of a key file.
pub struct VaultKey {
    pub password: Option<Pwd>,
    pub keyfile: Option<Vec<u8>>,
}

/// Assembles the composite key: an empty password means "no password
/// component", and the key-file bytes are passed through untouched.
pub fn new_database_key(keyfile: Option<Vec<u8>>, password: Pwd) -> (r: VaultKey)
    ensures
        password@.len() == 0 ==> r.password is None,
        password@.len() > 0 ==> r.password is Some && r.password.unwrap()@ == password@,
        r.keyfile == keyfile,
{
    let password = if password.is_empty() {
        None
    } else {
        Some(password)
    };
    VaultKey { password, keyfile }
}

} // verus!
