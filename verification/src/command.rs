use vstd::prelude::*;
use vstd::utf8::encode_utf8;
use crate::data::{PacketEncoder, varnum_bytes, be_bytes, bool_byte, str_bytes};
use crate::clientbound::{ClientBoundPacket, str_fits};

verus! {

/// How a string argument consumes input: one word, a quoted phrase, or
/// everything to the end of the line.
#[derive(Debug, Clone, Copy, PartialEq, Eq, Structural)]
pub enum StringKind {
    Single,
    Quoted,
    Greedy,
}

/// An argument node's parser descriptor. Numeric bounds are optional;
/// the `Float` and `Double` bounds carry IEEE-754 bit patterns.
#[derive(Debug, Clone, Copy, PartialEq)]
pub enum Parser {
    Bool,
    Float { min: Option<u32>, max: Option<u32> },
    Double { min: Option<u64>, max: Option<u64> },
    Int { min: Option<i32>, max: Option<i32> },
    Long { min: Option<i64>, max: Option<i64> },
    Str { kind: StringKind },
}

/// What a command-graph node is: the root, a literal word, or a parsed
/// argument.
#[derive(Debug, Clone, PartialEq)]
pub enum CommandNodeType {
    Root,
    Literal { name: String },
    Argument { name: String, parser: Parser },
}

/// One node of the command graph, with its outgoing child edges and
/// optional redirect edge.
#[derive(Debug, Clone, PartialEq)]
pub struct CommandNode {
    pub executable: bool,
    pub redirect: Option<i32>,
    pub children: Vec<i32>,
    pub suggestion: Option<String>,
    pub type_data: CommandNodeType,
}

/// The command grammar advertised to a client: an append-only,
/// index-addressed node set whose node 0 is always the root.
#[derive(Debug, Clone, PartialEq)]
pub struct Commands {
    pub nodes: Vec<CommandNode>,
}

// ---------------------------------------------------------------------------
// Wire encoding, spec level
// ---------------------------------------------------------------------------

/// The presence byte before optional numeric bounds: bit 0 for the
/// minimum, bit 1 for the maximum.
pub open spec fn bounds_flag(has_min: bool, has_max: bool) -> u8 {
    ((if has_min {
        1int
    } else {
        0int
    }) + (if has_max {
        2int
    } else {
        0int
    })) as u8
}

/// An optional 32-bit bound: present bounds encode big-endian, absent
/// bounds encode to nothing.
pub open spec fn opt_be4(o: Option<u32>) -> Seq<u8> {
    match o {
        Some(v) => be_bytes(v as nat, 4),
        None => seq![],
    }
}

/// An optional 64-bit bound.
pub open spec fn opt_be8(o: Option<u64>) -> Seq<u8> {
    match o {
        Some(v) => be_bytes(v as nat, 8),
        None => seq![],
    }
}

/// The wire form of a parser descriptor.
pub open spec fn parser_bytes(p: Parser) -> Seq<u8> {
    match p {
        Parser::Bool => varnum_bytes(0),
        Parser::Float { min, max } => varnum_bytes(1) + seq![
            bounds_flag(min is Some, max is Some),
        ] + opt_be4(min) + opt_be4(max),
        Parser::Double { min, max } => varnum_bytes(2) + seq![
            bounds_flag(min is Some, max is Some),
        ] + opt_be8(min) + opt_be8(max),
        Parser::Int { min, max } => varnum_bytes(3) + seq![bounds_flag(min is Some, max is Some)]
            + opt_be4(match min {
            Some(v) => Some(v as u32),
            None => None,
        }) + opt_be4(match max {
            Some(v) => Some(v as u32),
            None => None,
        }),
        Parser::Long { min, max } => varnum_bytes(4) + seq![bounds_flag(min is Some, max is Some)]
            + opt_be8(match min {
            Some(v) => Some(v as u64),
            None => None,
        }) + opt_be8(match max {
            Some(v) => Some(v as u64),
            None => None,
        }),
        Parser::Str { kind } => varnum_bytes(5) + varnum_bytes(
            match kind {
                StringKind::Single => 0nat,
                StringKind::Quoted => 1nat,
                StringKind::Greedy => 2nat,
            },
        ),
    }
}

/// The kind bits of a node's flags byte.
pub open spec fn node_kind_bits(t: CommandNodeType) -> u8 {
    match t {
        CommandNodeType::Root => 0,
        CommandNodeType::Literal { .. } => 1,
        CommandNodeType::Argument { .. } => 2,
    }
}

/// A node's flags byte: kind bits, then the executable, has-redirect and
/// has-suggestion bits.
pub open spec fn node_flags(n: CommandNode) -> u8 {
    (node_kind_bits(n.type_data) + (if n.executable {
        4int
    } else {
        0int
    }) + (if n.redirect is Some {
        8int
    } else {
        0int
    }) + (if n.suggestion is Some {
        16int
    } else {
        0int
    })) as u8
}

/// The child indices, each as a varint, in order.
pub open spec fn children_bytes(s: Seq<i32>) -> Seq<u8>
    decreases s.len(),
{
    if s.len() == 0 {
        seq![]
    } else {
        children_bytes(s.drop_last()) + varnum_bytes((s.last() as u32) as nat)
    }
}

/// The kind-specific payload after the common node header.
pub open spec fn node_type_bytes(t: CommandNodeType) -> Seq<u8> {
    match t {
        CommandNodeType::Root => seq![],
        CommandNodeType::Literal { name } => str_bytes(name@),
        CommandNodeType::Argument { name, parser } => str_bytes(name@) + parser_bytes(parser),
    }
}

/// The full wire form of one node.
pub open spec fn node_bytes(n: CommandNode) -> Seq<u8> {
    seq![node_flags(n)] + varnum_bytes(n.children@.len()) + children_bytes(n.children@) + (
    match n.redirect {
        Some(r) => varnum_bytes((r as u32) as nat),
        None => seq![],
    }) + node_type_bytes(n.type_data) + (match n.suggestion {
        Some(s) => str_bytes(s@),
        None => seq![],
    })
}

/// The wire form of a node list, in order.
pub open spec fn nodes_bytes(s: Seq<CommandNode>) -> Seq<u8>
    decreases s.len(),
{
    if s.len() == 0 {
        seq![]
    } else {
        nodes_bytes(s.drop_last()) + node_bytes(s.last())
    }
}

// ---------------------------------------------------------------------------
// Well-formedness
// ---------------------------------------------------------------------------

impl CommandNode {
    /// The node's strings and child count stay within their wire limits.
    pub open spec fn encodable(&self) -> bool {
        &&& self.children@.len() < 0x8000_0000
        &&& match self.type_data {
            CommandNodeType::Root => true,
            CommandNodeType::Literal { name } => str_fits(name@, 32767),
            CommandNodeType::Argument { name, .. } => str_fits(name@, 32767),
        }
        &&& match self.suggestion {
            Some(s) => str_fits(s@, 32767),
            None => true,
        }
    }

    /// Every edge out of the node points below `n`: no forward
    /// references.
    pub open spec fn refs_below(&self, n: int) -> bool {
        &&& forall|j: int| 0 <= j < self.children@.len() ==> 0 <= #[trigger] self.children@[j] < n
        &&& match self.redirect {
            Some(r) => 0 <= r < n,
            None => true,
        }
    }
}

impl Commands {
    /// The graph invariant: node 0 is the root and the only root, every
    /// edge points at an existing node, and every node is encodable.
    pub open spec fn wf(&self) -> bool {
        &&& 1 <= self.nodes@.len()
        &&& self.nodes@[0].type_data is Root
        &&& forall|i: int| 1 <= i < self.nodes@.len() ==> !((#[trigger] self.nodes@[i]).type_data is Root)
        &&& forall|i: int|
            0 <= i < self.nodes@.len() ==> (#[trigger] self.nodes@[i]).encodable() && self.nodes@[i].refs_below(
                self.nodes@.len() as int,
            )
    }

    /// A fresh graph: the root, plus the shared greedy-string argument
    /// node that simple commands attach as their child.
    pub fn new() -> (r: Commands)
        ensures
            r.wf(),
            r.nodes@.len() == 2,
            r.nodes@[0] == (CommandNode {
                executable: false,
                redirect: None,
                children: r.nodes@[0].children,
                suggestion: None,
                type_data: CommandNodeType::Root,
            }),
            r.nodes@[0].children@ =~= Seq::<i32>::empty(),
            r.nodes@[1].executable,
            r.nodes@[1].children@ =~= Seq::<i32>::empty(),
            r.nodes@[1].redirect is None,
            r.nodes@[1].suggestion is None,
            r.nodes@[1].type_data matches CommandNodeType::Argument { name, parser } && name@
                == "[args]"@ && parser == (Parser::Str { kind: StringKind::Greedy }),
    {
        let root = CommandNode {
            executable: false,
            redirect: None,
            children: Vec::new(),
            suggestion: None,
            type_data: CommandNodeType::Root,
        };
        let simple_cmd_arg = CommandNode {
            executable: true,
            redirect: None,
            children: Vec::new(),
            suggestion: None,
            type_data: CommandNodeType::Argument {
                name: "[args]".to_owned(),
                parser: Parser::Str { kind: StringKind::Greedy },
            },
        };
        let mut nodes = Vec::new();
        nodes.push(root);
        nodes.push(simple_cmd_arg);
        let r = Commands { nodes };
        proof {
            reveal_strlit("[args]");
            crate::data::lemma_utf8_len("[args]"@);
        }
        r
    }

    /// Appends a node and registers it as a child of `parent`. Refuses —
    /// and leaves the graph untouched — when `parent` or `redirect` lies
    /// out of range, when the node claims to be a root, or when one of
    /// its strings exceeds the wire limit.
    pub fn create_node(
        &mut self,
        parent: i32,
        type_data: CommandNodeType,
        executable: bool,
        redirect: Option<i32>,
        suggestion: Option<String>,
    ) -> (r: Option<i32>)
        ensures
            ({
                let len = old(self).nodes@.len() as int;
                let refused = {
                    ||| parent < 0
                    ||| parent >= len
                    ||| (match redirect {
                        Some(rd) => rd < 0 || rd >= len,
                        None => false,
                    })
                    ||| type_data is Root
                    ||| !(match type_data {
                        CommandNodeType::Root => true,
                        CommandNodeType::Literal { name } => str_fits(name@, 32767),
                        CommandNodeType::Argument { name, .. } => str_fits(name@, 32767),
                    })
                    ||| !(match suggestion {
                        Some(s) => str_fits(s@, 32767),
                        None => true,
                    })
                    ||| len >= 0x7fff_ffff
                    ||| (0 <= parent < len && old(self).nodes@[parent as int].children@.len() + 1
                        >= 0x8000_0000)
                };
                if refused {
                    r is None && *final(self) == *old(self)
                } else {
                    &&& r == Some(len as i32)
                    &&& final(self).nodes@.len() == len + 1
                    &&& final(self).nodes@[len] == (CommandNode {
                        executable,
                        redirect,
                        children: final(self).nodes@[len].children,
                        suggestion,
                        type_data,
                    })
                    &&& final(self).nodes@[len].children@ =~= Seq::<i32>::empty()
                    &&& final(self).nodes@[parent as int].children@ == old(self).nodes@[
                        parent as int
                    ].children@.push(len as i32)
                    &&& final(self).nodes@[parent as int] == (CommandNode {
                        children: final(self).nodes@[parent as int].children,
                        ..old(self).nodes@[parent as int]
                    })
                    &&& forall|i: int|
                        0 <= i < len && i != parent ==> final(self).nodes@[i] == old(self).nodes@[i]
                    &&& (old(self).wf() ==> final(self).wf())
                }
            }),
    {
        let len = self.nodes.len();
        if parent < 0 || parent as usize >= len {
            return None;
        }
        if let Some(rd) = redirect {
            if rd < 0 || rd as usize >= len {
                return None;
            }
        }
        match &type_data {
            CommandNodeType::Root => {
                return None;
            },
            CommandNodeType::Literal { name } => {
                if name.as_str().as_bytes().len() > 131071 {
                    return None;
                }
            },
            CommandNodeType::Argument { name, .. } => {
                if name.as_str().as_bytes().len() > 131071 {
                    return None;
                }
            },
        }
        if let Some(s) = &suggestion {
            if s.as_str().as_bytes().len() > 131071 {
                return None;
            }
        }
        if len >= 0x7fff_ffff {
            return None;
        }
        if self.nodes[parent as usize].children.len() >= 0x7fff_ffff {
            return None;
        }
        let id = len as i32;
        let node = CommandNode {
            executable,
            redirect,
            children: Vec::new(),
            suggestion,
            type_data,
        };
        let ghost node_g = node;
        self.nodes.push(node);
        self.nodes[parent as usize].children.push(id);
        proof {
            assert(self.nodes@[parent as int].children@ == old(self).nodes@[
                parent as int
            ].children@.push(id));
            assert forall|i: int| 0 <= i < len && i != parent implies self.nodes@[i] == old(
                self,
            ).nodes@[i] by {}
            assert(self.nodes@[len as int].children@ =~= Seq::<i32>::empty());
            if old(self).wf() {
                assert(self.wf()) by {
                    let n = self.nodes@.len() as int;
                    assert forall|i: int| 0 <= i < n implies (#[trigger] self.nodes@[i]).encodable()
                        && self.nodes@[i].refs_below(n) by {
                        if i < len && i != parent {
                            assert(self.nodes@[i] == old(self).nodes@[i]);
                            assert(old(self).nodes@[i].encodable());
                            assert(old(self).nodes@[i].refs_below(len as int));
                        } else if i == parent {
                            assert(old(self).nodes@[i].encodable());
                            assert(old(self).nodes@[i].refs_below(len as int));
                            let cs = self.nodes@[i].children@;
                            assert(cs == old(self).nodes@[i].children@.push(id));
                            assert forall|j: int| 0 <= j < cs.len() implies 0 <= #[trigger] cs[j]
                                < n by {
                                if j < cs.len() - 1 {
                                    assert(cs[j] == old(self).nodes@[i].children@[j]);
                                    assert(0 <= old(self).nodes@[i].children@[j] < len);
                                } else {
                                    assert(cs[j] == id);
                                }
                            }
                        } else {
                            assert(self.nodes@[i] == node_g);
                            assert(node_g.children@.len() == 0);
                            assert(node_g.encodable());
                            assert(node_g.refs_below(n));
                        }
                    }
                    assert forall|i: int| 1 <= i < n implies !((#[trigger] self.nodes@[i]).type_data is Root) by {
                        if i < len && i != parent {
                            assert(self.nodes@[i] == old(self).nodes@[i]);
                            assert(!(old(self).nodes@[i].type_data is Root));
                        } else if i == parent {
                            assert(self.nodes@[i].type_data == old(self).nodes@[i].type_data);
                            assert(!(old(self).nodes@[i].type_data is Root));
                        } else {
                            assert(self.nodes@[i] == node_g);
                        }
                    }
                }
            }
        }
        Some(id)
    }

    /// Appends the canonical shape of a plain command: a literal node
    /// under the root, wired to the shared greedy-string argument node,
    /// both executable. Refuses when the graph has no root yet or the
    /// name exceeds the wire limit.
    pub fn create_simple_cmd(&mut self, name: &str) -> (r: Option<i32>)
        ensures
            r is Some ==> final(self).nodes@.len() == old(self).nodes@.len() + 1,
            r is None ==> *final(self) == *old(self),
            old(self).wf() ==> final(self).wf(),
            ({
                let len = old(self).nodes@.len() as int;
                (len >= 2 && str_fits(name@, 32767) && len < 0x7fff_ffff && old(
                    self,
                ).nodes@[0].children@.len() + 1 < 0x8000_0000) ==> {
                    &&& r == Some(len as i32)
                    &&& final(self).nodes@[len].executable
                    &&& final(self).nodes@[len].type_data matches CommandNodeType::Literal {
                        name: nm,
                    } && nm@ == name@
                    &&& final(self).nodes@[len].children@ =~= seq![1i32]
                    &&& final(self).nodes@[0].children@ == old(self).nodes@[0].children@.push(
                        len as i32,
                    )
                }
            }),
    {
        let id = match self.create_node(
            0,
            CommandNodeType::Literal { name: name.to_owned() },
            true,
            None,
            None,
        ) {
            Some(id) => id,
            None => {
                return None;
            },
        };
        self.add_child(id, 1);
        Some(id)
    }

    /// Wires an existing node to an existing child.
    pub fn add_child(&mut self, node: i32, child: i32)
        requires
            0 <= node < old(self).nodes@.len(),
            0 <= child < old(self).nodes@.len(),
            old(self).nodes@[node as int].children@.len() + 1 < 0x8000_0000,
        ensures
            final(self).nodes@.len() == old(self).nodes@.len(),
            final(self).nodes@[node as int].children@ == old(self).nodes@[
                node as int
            ].children@.push(child),
            final(self).nodes@[node as int] == (CommandNode {
                children: final(self).nodes@[node as int].children,
                ..old(self).nodes@[node as int]
            }),
            forall|i: int|
                0 <= i < old(self).nodes@.len() && i != node ==> final(self).nodes@[i] == old(
                    self,
                ).nodes@[i],
            old(self).wf() ==> final(self).wf(),
    {
        self.nodes[node as usize].children.push(child);
        proof {
            assert forall|i: int|
                0 <= i < old(self).nodes@.len() && i != node implies self.nodes@[i] == old(
                self,
            ).nodes@[i] by {}
            if old(self).wf() {
                assert(self.wf()) by {
                    let len = self.nodes@.len() as int;
                    assert forall|i: int| 0 <= i < len implies (#[trigger] self.nodes@[i]).encodable()
                        && self.nodes@[i].refs_below(len) by {
                        assert(old(self).nodes@[i].encodable());
                        assert(old(self).nodes@[i].refs_below(len));
                        if i != node {
                            assert(self.nodes@[i] == old(self).nodes@[i]);
                        }
                    }
                    assert forall|i: int| 1 <= i < len implies !((#[trigger] self.nodes@[i]).type_data is Root) by {
                        if i != node {
                            assert(self.nodes@[i] == old(self).nodes@[i]);
                        }
                    }
                }
            }
        }
    }
}

// ---------------------------------------------------------------------------
// Wire encoding, exec level
// ---------------------------------------------------------------------------

impl Parser {
    /// Appends the parser descriptor.
    pub fn encode(&self, encoder: &mut PacketEncoder)
        ensures
            final(encoder)@ == old(encoder)@ + parser_bytes(*self),
    {
        match self {
            Parser::Bool => {
                encoder.write_varint(0);
            },
            Parser::Float { min, max } => {
                encoder.write_varint(1);
                let flag: i8 = (if min.is_some() {
                    1i8
                } else {
                    0i8
                }) + (if max.is_some() {
                    2i8
                } else {
                    0i8
                });
                encoder.write_byte(flag);
                if let Some(m) = min {
                    encoder.write_int(*m as i32);
                    proof {
                        let m0 = *m;
                        assert((m0 as i32) as u32 == m0) by (bit_vector);
                    }
                }
                if let Some(m) = max {
                    encoder.write_int(*m as i32);
                    proof {
                        let m0 = *m;
                        assert((m0 as i32) as u32 == m0) by (bit_vector);
                    }
                }
                assert(final(encoder)@ =~= old(encoder)@ + parser_bytes(*self));
            },
            Parser::Double { min, max } => {
                encoder.write_varint(2);
                let flag: i8 = (if min.is_some() {
                    1i8
                } else {
                    0i8
                }) + (if max.is_some() {
                    2i8
                } else {
                    0i8
                });
                encoder.write_byte(flag);
                if let Some(m) = min {
                    encoder.write_long(*m as i64);
                    proof {
                        let m0 = *m;
                        assert((m0 as i64) as u64 == m0) by (bit_vector);
                    }
                }
                if let Some(m) = max {
                    encoder.write_long(*m as i64);
                    proof {
                        let m0 = *m;
                        assert((m0 as i64) as u64 == m0) by (bit_vector);
                    }
                }
                assert(final(encoder)@ =~= old(encoder)@ + parser_bytes(*self));
            },
            Parser::Int { min, max } => {
                encoder.write_varint(3);
                let flag: i8 = (if min.is_some() {
                    1i8
                } else {
                    0i8
                }) + (if max.is_some() {
                    2i8
                } else {
                    0i8
                });
                encoder.write_byte(flag);
                if let Some(m) = min {
                    encoder.write_int(*m);
                }
                if let Some(m) = max {
                    encoder.write_int(*m);
                }
                assert(final(encoder)@ =~= old(encoder)@ + parser_bytes(*self));
            },
            Parser::Long { min, max } => {
                encoder.write_varint(4);
                let flag: i8 = (if min.is_some() {
                    1i8
                } else {
                    0i8
                }) + (if max.is_some() {
                    2i8
                } else {
                    0i8
                });
                encoder.write_byte(flag);
                if let Some(m) = min {
                    encoder.write_long(*m);
                }
                if let Some(m) = max {
                    encoder.write_long(*m);
                }
                assert(final(encoder)@ =~= old(encoder)@ + parser_bytes(*self));
            },
            Parser::Str { kind } => {
                encoder.write_varint(5);
                encoder.write_varint(
                    match kind {
                        StringKind::Single => 0,
                        StringKind::Quoted => 1,
                        StringKind::Greedy => 2,
                    },
                );
                assert(final(encoder)@ =~= old(encoder)@ + parser_bytes(*self));
            },
        }
    }
}

impl CommandNode {
    /// Appends the node's full wire form.
    #[verifier::rlimit(60)]
    pub fn encode(&self, encoder: &mut PacketEncoder)
        requires
            self.encodable(),
        ensures
            final(encoder)@ == old(encoder)@ + node_bytes(*self),
    {
        let mut flags: i8 = match self.type_data {
            CommandNodeType::Root => 0,
            CommandNodeType::Literal { .. } => 1,
            CommandNodeType::Argument { .. } => 2,
        };
        if self.executable {
            flags += 4;
        }
        if self.redirect.is_some() {
            flags += 8;
        }
        if self.suggestion.is_some() {
            flags += 16;
        }
        encoder.write_byte(flags);
        encoder.write_varint(self.children.len() as i32);
        let ghost mid = encoder@;
        let n = self.children.len();
        let mut i: usize = 0;
        while i < n
            invariant
                n == self.children@.len(),
                i <= n,
                encoder@ == mid + children_bytes(self.children@.take(i as int)),
            decreases n - i,
        {
            encoder.write_varint(self.children[i]);
            proof {
                let cs = self.children@;
                assert(cs.take(i + 1).drop_last() =~= cs.take(i as int));
                assert(cs.take(i + 1).last() == cs[i as int]);
                assert(encoder@ =~= mid + children_bytes(cs.take(i + 1)));
            }
            i = i + 1;
        }
        proof {
            assert(self.children@.take(n as int) =~= self.children@);
        }
        let ghost mid2 = encoder@;
        if let Some(redirect) = &self.redirect {
            encoder.write_varint(*redirect);
        }
        let ghost mid3 = encoder@;
        match &self.type_data {
            CommandNodeType::Root => {},
            CommandNodeType::Literal { name } => {
                encoder.write_string(32767, name.as_str());
            },
            CommandNodeType::Argument { name, parser } => {
                encoder.write_string(32767, name.as_str());
                parser.encode(encoder);
            },
        }
        proof {
            assert(encoder@ =~= mid3 + node_type_bytes(self.type_data));
        }
        if let Some(suggestion) = &self.suggestion {
            encoder.write_string(32767, suggestion.as_str());
        }
        assert(final(encoder)@ =~= old(encoder)@ + node_bytes(*self)) by {
            assert((self.children.len() as i32) as u32 as nat == self.children@.len());
            assert(seq![node_flags(*self)] =~= seq![flags as u8]);
        }
    }
}

impl ClientBoundPacket for Commands {
    open spec fn payload_spec(&self) -> Seq<u8> {
        varnum_bytes(self.nodes@.len()) + nodes_bytes(self.nodes@) + varnum_bytes(0)
    }

    open spec fn id_spec(&self) -> i32 {
        0x0e
    }

    open spec fn valid(&self) -> bool {
        &&& self.nodes@.len() < 0x8000_0000
        &&& forall|i: int| 0 <= i < self.nodes@.len() ==> (#[trigger] self.nodes@[i]).encodable()
    }

    fn encode(&self, encoder: &mut PacketEncoder) {
        encoder.write_varint(self.nodes.len() as i32);
        let ghost mid = encoder@;
        let n = self.nodes.len();
        let mut i: usize = 0;
        while i < n
            invariant
                n == self.nodes@.len(),
                i <= n,
                self.valid(),
                encoder@ == mid + nodes_bytes(self.nodes@.take(i as int)),
            decreases n - i,
        {
            self.nodes[i].encode(encoder);
            proof {
                let ns = self.nodes@;
                assert(ns.take(i + 1).drop_last() =~= ns.take(i as int));
                assert(ns.take(i + 1).last() == ns[i as int]);
                assert(encoder@ =~= mid + nodes_bytes(ns.take(i + 1)));
            }
            i = i + 1;
        }
        proof {
            assert(self.nodes@.take(n as int) =~= self.nodes@);
        }
        // root node index
        encoder.write_varint(0);
        assert(final(encoder)@ =~= old(encoder)@ + self.payload_spec()) by {
            assert((self.nodes.len() as i32) as u32 as nat == self.nodes@.len());
        }
    }

    fn packet_id(&self) -> i32 {
        0x0e
    }
}

impl CommandNode {
    /// Checks `encodable` at run time.
    pub fn check_encodable(&self) -> (b: bool)
        ensures
            b == self.encodable(),
    {
        if self.children.len() >= 0x8000_0000usize {
            return false;
        }
        match &self.type_data {
            CommandNodeType::Root => {},
            CommandNodeType::Literal { name } => {
                if name.as_str().as_bytes().len() > 131071 {
                    return false;
                }
            },
            CommandNodeType::Argument { name, .. } => {
                if name.as_str().as_bytes().len() > 131071 {
                    return false;
                }
            },
        }
        if let Some(sg) = &self.suggestion {
            if sg.as_str().as_bytes().len() > 131071 {
                return false;
            }
        }
        true
    }
}

impl Commands {
    /// Checks the encoding bounds of the whole graph at run time.
    pub fn check_valid(&self) -> (b: bool)
        ensures
            b == ClientBoundPacket::valid(self),
    {
        if self.nodes.len() >= 0x8000_0000usize {
            return false;
        }
        let n = self.nodes.len();
        let mut i: usize = 0;
        while i < n
            invariant
                n == self.nodes@.len(),
                i <= n,
                forall|k: int| 0 <= k < i ==> (#[trigger] self.nodes@[k]).encodable(),
            decreases n - i,
        {
            if !self.nodes[i].check_encodable() {
                return false;
            }
            i = i + 1;
        }
        true
    }
}

} // verus!
