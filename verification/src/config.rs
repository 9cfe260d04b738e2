//! Static group configuration: one entry per node, identifiers assigned in
//! declaration order starting at 0, parsed from a plain-text file: a line
//! with the node count, then one `<name> <hostname> <port>` line per node.

use vstd::prelude::*;

verus! {

/// A node's identity: a small non-negative integer, stable for the lifetime
/// of the process, assigned by position in the configuration.
pub type NodeId = usize;

/// Address record of one node of the group.
#[derive(Clone, Debug)]
pub struct NodeConfiguration {
    pub node_id: NodeId,
    pub hostname: String,
    pub port: u16,
}

impl NodeConfiguration {
    pub fn new(node_id: NodeId, hostname: String, port: u16) -> (c: NodeConfiguration)
        ensures
            c.node_id == node_id,
            c.hostname == hostname,
            c.port == port,
    {
        NodeConfiguration { node_id, hostname, port }
    }
}

/// The whole group's configuration. Entry `i` describes the node with
/// identifier `i`.
#[derive(Debug)]
pub struct Config {
    configurations: Vec<NodeConfiguration>,
    next_id: usize,
}

impl Config {
    /// The nodes in identifier order.
    pub closed spec fn view(&self) -> Seq<NodeConfiguration> {
        self.configurations@
    }

    /// Identifiers were handed out consecutively from zero.
    pub closed spec fn wf(&self) -> bool {
        &&& self.next_id == self.configurations@.len()
        &&& forall|i: int|
            0 <= i < self.configurations@.len() ==> (#[trigger] self.configurations@[i]).node_id == i
    }

    pub fn new() -> (c: Config)
        ensures
            c.wf(),
            c@ =~= Seq::<NodeConfiguration>::empty(),
    {
        Config { configurations: Vec::new(), next_id: 0 }
    }

    /// Appends a node and returns the identifier it was assigned: the next
    /// free one, i.e. the number of nodes added before it.
    pub fn add_node(&mut self, hostname: String, port: u16) -> (node_id: NodeId)
        requires
            old(self).wf(),
            old(self)@.len() < usize::MAX,
        ensures
            final(self).wf(),
            node_id == old(self)@.len(),
            final(self)@ =~= old(self)@.push(
                NodeConfiguration { node_id: node_id, hostname: hostname, port: port },
            ),
    {
        let node_id = self.next_id;
        self.configurations.push(NodeConfiguration { node_id, hostname, port });
        self.next_id = self.next_id + 1;
        node_id
    }

    pub fn get(&self, node_id: usize) -> (r: Option<&NodeConfiguration>)
        ensures
            node_id < self@.len() ==> (r matches Some(c) && *c == self@[node_id as int]),
            node_id >= self@.len() ==> r is None,
    {
        if node_id < self.configurations.len() {
            Some(&self.configurations[node_id])
        } else {
            None
        }
    }

    /// The peers a node dials at bring-up: exactly those with a strictly
    /// smaller identifier. (It accepts inbound connections from the rest.)
    pub fn get_connection_list(node_id: usize) -> (r: Vec<NodeId>)
        ensures
            r@.len() == node_id,
            forall|i: int| 0 <= i < node_id ==> r@[i] == i,
    {
        let mut list: Vec<NodeId> = Vec::new();
        let mut i: usize = 0;
        while i < node_id
            invariant
                i <= node_id,
                list@.len() == i,
                forall|j: int| 0 <= j < i ==> list@[j] == j,
            decreases node_id - i,
        {
            list.push(i);
            i = i + 1;
        }
        list
    }

    pub fn len(&self) -> (n: usize)
        ensures
            n == self@.len(),
    {
        self.configurations.len()
    }
}


/// What is wrong with a configuration file.
#[derive(Clone, Copy, Debug, PartialEq, Eq, Structural)]
pub enum ConfigError {
    /// The file is empty: the node count is missing.
    MissingNodeCount,
    /// The first line is not a single number.
    BadNodeCount,
    /// The numbered line has fewer than three fields.
    BadLine(usize),
    /// The numbered line's third field is not a port number.
    BadPort(usize),
    /// The given node name is not listed.
    UnknownNode,
    /// The number of node lines does not match the declared count.
    CountMismatch,
}

/// The node count a first line declares: its single numeric field.
pub open spec fn spec_count_token(line: Seq<char>) -> Option<usize> {
    let toks = crate::cli::spec_tokens(line);
    if toks.len() == 1 {
        crate::cli::spec_parse_usize(toks[0])
    } else {
        None
    }
}

/// The entry a node line declares: its first three fields, the third a port
/// number. Fields beyond the third are ignored.
pub open spec fn spec_line_entry(line: Seq<char>) -> Option<(Seq<char>, Seq<char>, u16)> {
    let toks = crate::cli::spec_tokens(line);
    if toks.len() >= 3 {
        match crate::cli::spec_parse_usize(toks[2]) {
            Some(p) => if p <= u16::MAX {
                Some((toks[0], toks[1], p as u16))
            } else {
                None
            },
            None => None,
        }
    } else {
        None
    }
}

/// Parses a configuration file, given as its lines, and the identifier of
/// the node running this process: the node whose name is `given_node_name`,
/// the last one where the name repeats. Node identifiers are assigned in
/// declaration order starting at zero.
pub fn parse_config(lines: &Vec<String>, given_node_name: &str) -> (r: Result<
    (Config, NodeId),
    ConfigError,
>)
    ensures
        (r matches Ok(p) ==> {
            let n = lines@.len() - 1;
            &&& lines@.len() >= 1
            &&& spec_count_token(lines@[0]@) == Some(n as usize)
            &&& p.0.wf()
            &&& p.0@.len() == n
            &&& forall|i: int|
                0 <= i < n ==> (spec_line_entry(lines@[i + 1]@) matches Some(e) && (
                #[trigger] p.0@[i]).hostname@ == e.1 && p.0@[i].port == e.2 && p.0@[i].node_id == i)
            &&& p.1 < n
            &&& (spec_line_entry(lines@[p.1 as int + 1]@) matches Some(e) && e.0
                == given_node_name@)
            &&& forall|j: int|
                p.1 + 1 < j < lines@.len() ==> ((#[trigger] spec_line_entry(
                    lines@[j]@,
                )) matches Some(e) && e.0 != given_node_name@)
        }),
        (r == Err::<(Config, NodeId), ConfigError>(ConfigError::MissingNodeCount) <==> lines@.len()
            == 0),
        (lines@.len() >= 1 ==> (r == Err::<(Config, NodeId), ConfigError>(ConfigError::BadNodeCount)
            <==> spec_count_token(lines@[0]@) is None)),
        (r matches Err(e) ==> (e matches ConfigError::BadLine(i) ==> 1 <= i < lines@.len()
            && crate::cli::spec_tokens(lines@[i as int]@).len() < 3 && forall|j: int|
            1 <= j < i ==> (#[trigger] spec_line_entry(lines@[j]@)) is Some)),
        (r matches Err(e) ==> (e matches ConfigError::BadPort(i) ==> 1 <= i < lines@.len()
            && crate::cli::spec_tokens(lines@[i as int]@).len() >= 3 && spec_line_entry(
            lines@[i as int]@,
        ) is None && forall|j: int|
            1 <= j < i ==> (#[trigger] spec_line_entry(lines@[j]@)) is Some)),
        (r == Err::<(Config, NodeId), ConfigError>(ConfigError::UnknownNode) ==> forall|j: int|
            1 <= j < lines@.len() ==> ((#[trigger] spec_line_entry(lines@[j]@)) matches Some(e)
                && e.0 != given_node_name@)),
        (r == Err::<(Config, NodeId), ConfigError>(ConfigError::CountMismatch) ==> lines@.len() >= 1
            && (spec_count_token(lines@[0]@) matches Some(c) && c != lines@.len() - 1)),
{
    if lines.len() == 0 {
        return Err(ConfigError::MissingNodeCount);
    }
    let toks0 = crate::cli::tokenize(lines[0].as_str());
    let node_count: usize;
    if toks0.len() != 1 {
        return Err(ConfigError::BadNodeCount);
    }
    proof {
        assert(toks0@.map_values(|t: String| t@)[0] == toks0@[0]@);
    }
    match crate::cli::parse_usize(toks0[0].as_str()) {
        None => {
            return Err(ConfigError::BadNodeCount);
        },
        Some(c) => {
            node_count = c;
        },
    }
    let mut config = Config::new();
    let mut this_node_id: Option<NodeId> = None;
    let mut i: usize = 1;
    while i < lines.len()
        invariant
            1 <= i <= lines@.len(),
            spec_count_token(lines@[0]@) == Some(node_count),
            config.wf(),
            config@.len() == i - 1,
            forall|k: int|
                0 <= k < i - 1 ==> (spec_line_entry(lines@[k + 1]@) matches Some(e) && (
                #[trigger] config@[k]).hostname@ == e.1 && config@[k].port == e.2
                    && config@[k].node_id == k),
            (this_node_id matches Some(id) ==> id < i - 1 && (spec_line_entry(
                lines@[id as int + 1]@,
            ) matches Some(e) && e.0 == given_node_name@) && forall|j: int|
                id + 1 < j < i ==> ((#[trigger] spec_line_entry(lines@[j]@)) matches Some(e)
                    && e.0 != given_node_name@)),
            (this_node_id is None ==> forall|j: int|
                1 <= j < i ==> ((#[trigger] spec_line_entry(lines@[j]@)) matches Some(e) && e.0
                    != given_node_name@)),
        decreases lines@.len() - i,
    {
        let toks = crate::cli::tokenize(lines[i].as_str());
        if toks.len() < 3 {
            proof {
                assert(crate::cli::spec_tokens(lines@[i as int]@).len() < 3);
                assert forall|j: int| 1 <= j < i implies (#[trigger] spec_line_entry(
                    lines@[j]@,
                )) is Some by {
                    assert(config@[j - 1].node_id == j - 1);
                }
            }
            return Err(ConfigError::BadLine(i));
        }
        proof {
            assert(toks@.map_values(|t: String| t@)[0] == toks@[0]@);
            assert(toks@.map_values(|t: String| t@)[1] == toks@[1]@);
            assert(toks@.map_values(|t: String| t@)[2] == toks@[2]@);
        }
        proof {
            assert forall|j: int| 1 <= j < i implies (#[trigger] spec_line_entry(
                lines@[j]@,
            )) is Some by {
                assert(config@[j - 1].node_id == j - 1);
            }
        }
        let port: u16;
        match crate::cli::parse_usize(toks[2].as_str()) {
            None => {
                return Err(ConfigError::BadPort(i));
            },
            Some(p) => {
                if p > u16::MAX as usize {
                    return Err(ConfigError::BadPort(i));
                }
                port = p as u16;
            },
        }
        proof {
            assert(spec_line_entry(lines@[i as int]@) == Some((toks@[0]@, toks@[1]@, port)));
        }
        let hostname = crate::bank::string_copy(&toks[1]);
        let id = config.add_node(hostname, port);
        if crate::bank::str_equal(toks[0].as_str(), given_node_name) {
            this_node_id = Some(id);
        }
        proof {
            assert(config@[i as int - 1].hostname@ == toks@[1]@);
            assert(config@[i as int - 1].port == port);
        }
        i = i + 1;
    }
    proof {
        assert forall|k: int| 0 <= k < config@.len() implies (#[trigger] spec_line_entry(
            lines@[k + 1]@,
        )) is Some by {
            assert(config@[k].node_id == k);
        }
        assert forall|j: int| 1 <= j < lines@.len() implies (#[trigger] spec_line_entry(
            lines@[j]@,
        )) is Some by {
            assert(config@[j - 1].node_id == j - 1);
        }
    }
    match this_node_id {
        None => Err(ConfigError::UnknownNode),
        Some(id) => {
            if config.len() != node_count {
                Err(ConfigError::CountMismatch)
            } else {
                Ok((config, id))
            }
        },
    }
}

} // verus!
