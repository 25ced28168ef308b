//! The settings of a cluster node: its own id, the two database addresses and
//! the addresses of every node of the cluster, read from the texts that the
//! environment holds (`PEER_ID`, `DATABASE_LEADER_URL`, `DATABASE_FOLLOWER_URL`,
//! `CLUSTER_NODES`).
use crate::text::{parse_u32, spec_parse_u32};
use std::collections::HashMap;
use vstd::prelude::*;
use vstd::string::*;

verus! {

broadcast use vstd::std_specs::hash::group_hash_axioms;

/// Why the settings were refused.
#[derive(Debug, Clone, Copy, PartialEq, Eq, Structural)]
pub enum ConfigError {
    /// `PEER_ID` is not a number.
    InvalidPeerId,
    /// An entry of `CLUSTER_NODES` has a node id that is not a number.
    InvalidNodeId,
}

/// The settings of one node.
pub struct Config {
    pub peer_id: u32,
    pub database_leader_url: String,
    pub database_follower_url: String,
    /// Node id to the address of that node's peer service.
    pub cluster_nodes: HashMap<u32, String>,
}

/// The pieces of `s` between the occurrences of `sep`, as `str::split` gives
/// them (an empty text gives one empty piece).
pub open spec fn split_on(s: Seq<char>, sep: char) -> Seq<Seq<char>>
    decreases s.len(),
{
    if s.len() == 0 {
        seq![Seq::empty()]
    } else {
        let pieces = split_on(s.drop_last(), sep);
        if s.last() == sep {
            pieces.push(Seq::empty())
        } else {
            pieces.update(pieces.len() - 1, pieces.last().push(s.last()))
        }
    }
}

/// The pieces joined again, with `sep` between each two of them.
pub open spec fn join_with(pieces: Seq<Seq<char>>, sep: char) -> Seq<char>
    decreases pieces.len(),
{
    if pieces.len() == 0 {
        Seq::empty()
    } else if pieces.len() == 1 {
        pieces[0]
    } else {
        join_with(pieces.drop_last(), sep).push(sep) + pieces.last()
    }
}

/// The first index at or after `from` where `c` occurs in `s`.
pub open spec fn index_from(s: Seq<char>, c: char, from: int) -> Option<int>
    decreases s.len() - from,
{
    if from < 0 || from >= s.len() {
        None
    } else if s[from] == c {
        Some(from)
    } else {
        index_from(s, c, from + 1)
    }
}

/// `str::split_once('=')`: the text before the first `=` and the text after it.
pub open spec fn entry_of(piece: Seq<char>) -> Option<(Seq<char>, Seq<char>)> {
    match index_from(piece, '=', 0) {
        Some(i) => Some((piece.take(i), piece.skip(i + 1))),
        None => None,
    }
}

/// A piece is refused when it holds an `=` and the text before it is not a number.
pub open spec fn bad_entry(piece: Seq<char>) -> bool {
    entry_of(piece) matches Some((id, _)) && spec_parse_u32(id) is None
}

pub open spec fn entries_valid(pieces: Seq<Seq<char>>) -> bool {
    forall|k: int| 0 <= k < pieces.len() ==> !#[trigger] bad_entry(pieces[k])
}

/// The node table that the pieces describe, entries read left to right, so a
/// later entry for an id replaces an earlier one; pieces without `=` are skipped.
pub open spec fn nodes_map(pieces: Seq<Seq<char>>) -> Map<u32, Seq<char>>
    decreases pieces.len(),
{
    if pieces.len() == 0 {
        Map::empty()
    } else {
        let m = nodes_map(pieces.drop_last());
        match entry_of(pieces.last()) {
            Some((id, url)) => m.insert(spec_parse_u32(id)->0, url),
            None => m,
        }
    }
}

/// How `CLUSTER_NODES` is read: comma separated `id=address` entries.
pub open spec fn spec_parse_cluster_nodes(raw: Seq<char>) -> Option<Map<u32, Seq<char>>> {
    let pieces = split_on(raw, ',');
    if entries_valid(pieces) {
        Some(nodes_map(pieces))
    } else {
        None
    }
}

/// The texts of a table of strings.
pub open spec fn texts(m: Map<u32, String>) -> Map<u32, Seq<char>> {
    m.map_values(|s: String| s@)
}

pub proof fn lemma_split_nonempty(s: Seq<char>, sep: char)
    ensures
        split_on(s, sep).len() >= 1,
    decreases s.len(),
{
    if s.len() > 0 {
        lemma_split_nonempty(s.drop_last(), sep);
    }
}

proof fn lemma_index_from_bounds(s: Seq<char>, c: char, from: int)
    requires
        0 <= from,
    ensures
        index_from(s, c, from) matches Some(i) ==> from <= i < s.len() && s[i] == c,
    decreases s.len() - from,
{
    if from < s.len() && s[from] != c {
        lemma_index_from_bounds(s, c, from + 1);
    }
}

fn index_of(s: &str, c: char) -> (r: Option<usize>)
    ensures
        r matches Some(i) ==> i < s@.len() && index_from(s@, c, 0) == Some(i as int),
        r is None ==> index_from(s@, c, 0) is None,
{
    proof {
        lemma_index_from_bounds(s@, c, 0);
    }
    let n = s.unicode_len();
    let mut i: usize = 0;
    while i < n
        invariant
            i <= n,
            n == s@.len(),
            index_from(s@, c, 0) == index_from(s@, c, i as int),
        decreases n - i,
    {
        if s.get_char(i) == c {
            return Some(i);
        }
        i = i + 1;
    }
    None
}

/// Reads one `id=address` entry: `None` when it has no `=`, `Some(None)` when
/// the id is not a number, otherwise the id and the address.
fn read_entry(piece: &str) -> (r: Option<Option<(u32, String)>>)
    ensures
        match entry_of(piece@) {
            None => r is None,
            Some((id, url)) => match spec_parse_u32(id) {
                None => r == Some(None::<(u32, String)>),
                Some(n) => r matches Some(Some((k, u))) && k == n && u@ == url,
            },
        },
{
    match index_of(piece, '=') {
        None => None,
        Some(i) => {
            let n = piece.unicode_len();
            let id_text = piece.substring_char(0, i);
            assert(id_text@ =~= piece@.take(i as int));
            assert(entry_of(piece@) == Some((piece@.take(i as int), piece@.skip(i + 1))));
            match parse_u32(id_text) {
                None => Some(None),
                Some(id) => {
                    let url = piece.substring_char(i + 1, n);
                    assert(url@ =~= piece@.skip(i + 1));
                    Some(Some((id, String::from_str(url))))
                },
            }
        },
    }
}

fn absorb(
    nodes: &mut HashMap<u32, String>,
    bad: &mut bool,
    piece: &str,
    Ghost(done): Ghost<Seq<Seq<char>>>,
)
    requires
        *old(bad) == !entries_valid(done),
        !*old(bad) ==> texts(old(nodes)@) == nodes_map(done),
    ensures
        *final(bad) == !entries_valid(done.push(piece@)),
        !*final(bad) ==> texts(final(nodes)@) == nodes_map(done.push(piece@)),
{
    let ghost p = piece@;
    let ghost nd = done.push(p);
    assert(nd.drop_last() =~= done);
    assert(nd.last() == p);
    match read_entry(piece) {
        None => {},
        Some(None) => {
            *bad = true;
        },
        Some(Some((id, url))) => {
            nodes.insert(id, url);
        },
    }
    proof {
        assert forall|k: int| 0 <= k < done.len() implies nd[k] == done[k] by {}
        if bad_entry(p) {
            assert(bad_entry(nd[done.len() as int]));
        }
        if !*bad {
            assert(texts(nodes@) =~= nodes_map(nd));
        }
    }
}

/// Reads `CLUSTER_NODES`: comma separated `id=address` entries. Entries without
/// `=` are skipped, a later entry for an id replaces an earlier one, and an
/// entry whose id is not a number refuses the whole text.
pub fn parse_cluster_nodes(raw: &str) -> (r: Result<HashMap<u32, String>, ConfigError>)
    ensures
        match spec_parse_cluster_nodes(raw@) {
            Some(m) => r matches Ok(h) && texts(h@) == m,
            None => r == Err::<HashMap<u32, String>, ConfigError>(ConfigError::InvalidNodeId),
        },
{
    let n = raw.unicode_len();
    let mut nodes: HashMap<u32, String> = HashMap::new();
    let mut bad = false;
    let mut start: usize = 0;
    let mut i: usize = 0;
    let ghost mut done: Seq<Seq<char>> = Seq::empty();
    assert(raw@.take(0) =~= Seq::<char>::empty());
    assert(raw@.subrange(0, 0) =~= Seq::<char>::empty());
    assert(texts(nodes@) =~= nodes_map(done));
    while i < n
        invariant
            n == raw@.len(),
            start <= i <= n,
            split_on(raw@.take(i as int), ',') == done.push(raw@.subrange(start as int, i as int)),
            bad == !entries_valid(done),
            !bad ==> texts(nodes@) == nodes_map(done),
        decreases n - i,
    {
        proof {
            lemma_split_nonempty(raw@.take(i as int), ',');
            assert(raw@.take(i + 1).drop_last() =~= raw@.take(i as int));
        }
        if raw.get_char(i) == ',' {
            let piece = raw.substring_char(start, i);
            absorb(&mut nodes, &mut bad, piece, Ghost(done));
            proof {
                done = done.push(piece@);
                assert(raw@.subrange(i + 1, i + 1) =~= Seq::<char>::empty());
            }
            start = i + 1;
        } else {
            proof {
                assert(raw@.subrange(start as int, i + 1) =~= raw@.subrange(start as int, i as int).push(
                    raw@[i as int],
                ));
                assert(split_on(raw@.take(i + 1), ',') =~= done.push(raw@.subrange(start as int, i + 1)));
            }
        }
        i = i + 1;
    }
    let piece = raw.substring_char(start, n);
    absorb(&mut nodes, &mut bad, piece, Ghost(done));
    assert(raw@.take(n as int) =~= raw@);
    if bad {
        Err(ConfigError::InvalidNodeId)
    } else {
        Ok(nodes)
    }
}

/// The id an entry names, when it is an `id=address` entry with a numeric id.
pub open spec fn entry_id(piece: Seq<char>) -> Option<u32> {
    match entry_of(piece) {
        Some((id, _)) => spec_parse_u32(id),
        None => None,
    }
}

/// Splitting loses nothing: the pieces contain no separator, and joined with
/// the separator they give back the text.
pub proof fn law_split_joins_back(s: Seq<char>, sep: char)
    ensures
        join_with(split_on(s, sep), sep) == s,
        forall|k: int| 0 <= k < split_on(s, sep).len() ==> !#[trigger] split_on(s, sep)[k].contains(sep),
    decreases s.len(),
{
    if s.len() > 0 {
        let init = s.drop_last();
        law_split_joins_back(init, sep);
        lemma_split_nonempty(init, sep);
        let p = split_on(init, sep);
        let q = split_on(s, sep);
        assert(init.push(s.last()) =~= s);
        if s.last() == sep {
            assert(q.drop_last() =~= p);
            assert(join_with(q, sep) =~= join_with(p, sep).push(sep) + Seq::<char>::empty());
            assert forall|k: int| 0 <= k < q.len() implies !#[trigger] q[k].contains(sep) by {
                if k < p.len() {
                    assert(q[k] == p[k]);
                }
            }
        } else {
            let last = p.last().push(s.last());
            if p.len() == 1 {
                assert(q =~= seq![last]);
                assert(join_with(p, sep) == p[0]);
            } else {
                assert(q.drop_last() =~= p.drop_last());
                assert(join_with(q, sep) =~= join_with(p.drop_last(), sep).push(sep) + last);
                assert(join_with(p, sep) == join_with(p.drop_last(), sep).push(sep) + p.last());
                assert(join_with(q, sep) =~= join_with(p, sep).push(s.last()));
            }
            assert forall|k: int| 0 <= k < q.len() implies !#[trigger] q[k].contains(sep) by {
                if k < p.len() - 1 {
                    assert(q[k] == p[k]);
                } else {
                    assert(q[k] == last);
                    assert(!p[k].contains(sep));
                    if last.contains(sep) {
                        let j = choose|j: int| 0 <= j < last.len() && last[j] == sep;
                        assert(j < p[k].len());
                        assert(p[k][j] == sep);
                    }
                }
            }
        }
    }
}

/// The node table holds an id only when some entry names it.
pub proof fn law_table_ids_come_from_entries(pieces: Seq<Seq<char>>, id: u32)
    requires
        entries_valid(pieces),
        nodes_map(pieces).contains_key(id),
    ensures
        exists|k: int| 0 <= k < pieces.len() && entry_id(#[trigger] pieces[k]) == Some(id),
    decreases pieces.len(),
{
    let init = pieces.drop_last();
    assert forall|k: int| 0 <= k < init.len() implies !#[trigger] bad_entry(init[k]) by {
        assert(init[k] == pieces[k]);
    }
    assert(!bad_entry(pieces[pieces.len() - 1]));
    if entry_id(pieces.last()) == Some(id) {
        assert(entry_id(pieces[pieces.len() - 1]) == Some(id));
    } else {
        law_table_ids_come_from_entries(init, id);
        let k = choose|k: int| 0 <= k < init.len() && entry_id(#[trigger] init[k]) == Some(id);
        assert(pieces[k] == init[k]);
    }
}

/// Of several entries for one id, the last one gives the address.
pub proof fn law_last_entry_wins(pieces: Seq<Seq<char>>, k: int)
    requires
        entries_valid(pieces),
        0 <= k < pieces.len(),
        entry_id(pieces[k]) is Some,
        forall|j: int| k < j < pieces.len() ==> entry_id(#[trigger] pieces[j]) != entry_id(pieces[k]),
    ensures
        nodes_map(pieces).contains_key(entry_id(pieces[k])->0),
        nodes_map(pieces)[entry_id(pieces[k])->0] == (entry_of(pieces[k])->0).1,
    decreases pieces.len(),
{
    let init = pieces.drop_last();
    assert forall|j: int| 0 <= j < init.len() implies !#[trigger] bad_entry(init[j]) by {
        assert(init[j] == pieces[j]);
    }
    assert(!bad_entry(pieces[pieces.len() - 1]));
    if k < pieces.len() - 1 {
        assert(init[k] == pieces[k]);
        assert forall|j: int| k < j < init.len() implies entry_id(#[trigger] init[j]) != entry_id(init[k]) by {
            assert(init[j] == pieces[j]);
        }
        law_last_entry_wins(init, k);
        assert(entry_id(pieces[pieces.len() - 1]) != entry_id(pieces[k]));
    }
}

impl Config {
    /// The settings from the texts of `PEER_ID`, `DATABASE_LEADER_URL`,
    /// `DATABASE_FOLLOWER_URL` and `CLUSTER_NODES`. `PEER_ID` is read first:
    /// when it is not a number the settings are refused for it.
    pub fn from_values(
        peer_id: &str,
        database_leader_url: String,
        database_follower_url: String,
        cluster_nodes: &str,
    ) -> (r: Result<Config, ConfigError>)
        ensures
            spec_parse_u32(peer_id@) is None ==> r == Err::<Config, ConfigError>(ConfigError::InvalidPeerId),
            spec_parse_u32(peer_id@) is Some && spec_parse_cluster_nodes(cluster_nodes@) is None ==> r
                == Err::<Config, ConfigError>(ConfigError::InvalidNodeId),
            r matches Ok(c) ==> {
                &&& spec_parse_u32(peer_id@) == Some(c.peer_id)
                &&& c.database_leader_url@ == database_leader_url@
                &&& c.database_follower_url@ == database_follower_url@
                &&& spec_parse_cluster_nodes(cluster_nodes@) == Some(texts(c.cluster_nodes@))
            },
            spec_parse_u32(peer_id@) is Some && spec_parse_cluster_nodes(cluster_nodes@) is Some ==> r is Ok,
    {
        let id = match parse_u32(peer_id) {
            Some(id) => id,
            None => return Err(ConfigError::InvalidPeerId),
        };
        let nodes = match parse_cluster_nodes(cluster_nodes) {
            Ok(nodes) => nodes,
            Err(e) => return Err(e),
        };
        Ok(Config { peer_id: id, database_leader_url, database_follower_url, cluster_nodes: nodes })
    }
}

} // verus!
