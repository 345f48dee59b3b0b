//! Nodes of a processing graph: their kinds, their ports and their constant
//! inputs.

use vstd::prelude::*;
use crate::value::{Value, ValueTag, ValueView};

verus! {

/// Identifies a node. No two nodes of one mixer share an id.
pub type NodeId = u64;

/// The kinds of node. A graph is created with one `BufferInputNode` and one
/// `BufferOutputNode`; the other kinds are added and removed by commands.
#[derive(Clone, Copy, Debug, PartialEq, Eq, Structural)]
pub enum NodeType {
    EmptyNode,
    BufferInputNode,
    BufferOutputNode,
    AudioShaderNode,
    NoteInputNode,
}

/// What a command says of the node it asks for.
#[derive(Clone, Copy, Debug, PartialEq, Eq, Structural)]
pub struct NodeData {
    pub node_type: NodeType,
}

/// Why a node refused a change.
#[derive(Clone, Copy, Debug, PartialEq, Eq, Structural)]
pub enum NodeError {
    /// The node declares no input of that name.
    UnknownPort,
    /// The node is of a kind that holds no shader.
    NotAShader,
}

impl NodeType {
    /// The tag of the input port `name`, if this kind declares it.
    pub open spec fn input_tag(self, name: Seq<char>) -> Option<ValueTag> {
        match self {
            NodeType::BufferOutputNode => if name == "audio"@ {
                Some(ValueTag::Buffer)
            } else {
                None
            },
            NodeType::AudioShaderNode => if name == "audio"@ {
                Some(ValueTag::Buffer)
            } else if name == "notes"@ {
                Some(ValueTag::Notes)
            } else {
                None
            },
            _ => None,
        }
    }

    /// The tag of the output port `name`, if this kind declares it.
    pub open spec fn output_tag(self, name: Seq<char>) -> Option<ValueTag> {
        match self {
            NodeType::BufferInputNode => if name == "audio"@ {
                Some(ValueTag::Buffer)
            } else {
                None
            },
            NodeType::AudioShaderNode => if name == "audio"@ {
                Some(ValueTag::Buffer)
            } else {
                None
            },
            NodeType::NoteInputNode => if name == "notes"@ {
                Some(ValueTag::Notes)
            } else {
                None
            },
            _ => None,
        }
    }

    /// The names of the input ports, in declaration order.
    pub open spec fn input_names(self) -> Seq<Seq<char>> {
        match self {
            NodeType::BufferOutputNode => seq!["audio"@],
            NodeType::AudioShaderNode => seq!["audio"@, "notes"@],
            _ => seq![],
        }
    }

    /// The names of the output ports, in declaration order.
    pub open spec fn output_names(self) -> Seq<Seq<char>> {
        match self {
            NodeType::BufferInputNode => seq!["audio"@],
            NodeType::AudioShaderNode => seq!["audio"@],
            NodeType::NoteInputNode => seq!["notes"@],
            _ => seq![],
        }
    }

    /// The name by which this kind is known to observers.
    pub open spec fn kind_name(self) -> Seq<char> {
        match self {
            NodeType::EmptyNode => "EmptyNode"@,
            NodeType::BufferInputNode => "BufferInputNode"@,
            NodeType::BufferOutputNode => "BufferOutputNode"@,
            NodeType::AudioShaderNode => "AudioShaderNode"@,
            NodeType::NoteInputNode => "NoteInputNode"@,
        }
    }

    /// True for the kind that stands at the entry of a graph.
    pub open spec fn is_input(self) -> bool {
        self == NodeType::BufferInputNode
    }

    /// True for the kind that stands at the exit of a graph.
    pub open spec fn is_output(self) -> bool {
        self == NodeType::BufferOutputNode
    }

    /// True for the kinds a command may add to a graph and remove from it.
    pub open spec fn is_addable(self) -> bool {
        !self.is_input() && !self.is_output()
    }

    /// The tag of the input port `name`, if this kind declares it.
    pub fn find_input(self, name: &String) -> (t: Option<ValueTag>)
        ensures
            t == self.input_tag(name@),
    {
        let audio = "audio".to_owned();
        let notes = "notes".to_owned();
        match self {
            NodeType::BufferOutputNode => if *name == audio {
                Some(ValueTag::Buffer)
            } else {
                None
            },
            NodeType::AudioShaderNode => if *name == audio {
                Some(ValueTag::Buffer)
            } else if *name == notes {
                Some(ValueTag::Notes)
            } else {
                None
            },
            _ => None,
        }
    }

    /// The tag of the output port `name`, if this kind declares it.
    pub fn find_output(self, name: &String) -> (t: Option<ValueTag>)
        ensures
            t == self.output_tag(name@),
    {
        let audio = "audio".to_owned();
        let notes = "notes".to_owned();
        match self {
            NodeType::BufferInputNode => if *name == audio {
                Some(ValueTag::Buffer)
            } else {
                None
            },
            NodeType::AudioShaderNode => if *name == audio {
                Some(ValueTag::Buffer)
            } else {
                None
            },
            NodeType::NoteInputNode => if *name == notes {
                Some(ValueTag::Notes)
            } else {
                None
            },
            _ => None,
        }
    }

    /// The names of the input ports, in declaration order.
    pub fn inputs(self) -> (names: Vec<String>)
        ensures
            names@.len() == self.input_names().len(),
            forall|i: int| 0 <= i < names@.len() ==> (#[trigger] names@[i])@ == self.input_names()[i],
    {
        let mut names: Vec<String> = Vec::new();
        match self {
            NodeType::BufferOutputNode => {
                names.push("audio".to_owned());
            },
            NodeType::AudioShaderNode => {
                names.push("audio".to_owned());
                names.push("notes".to_owned());
            },
            _ => {},
        }
        names
    }

    /// The names of the output ports, in declaration order.
    pub fn outputs(self) -> (names: Vec<String>)
        ensures
            names@.len() == self.output_names().len(),
            forall|i: int| 0 <= i < names@.len() ==> (#[trigger] names@[i])@ == self.output_names()[i],
    {
        let mut names: Vec<String> = Vec::new();
        match self {
            NodeType::BufferInputNode => {
                names.push("audio".to_owned());
            },
            NodeType::AudioShaderNode => {
                names.push("audio".to_owned());
            },
            NodeType::NoteInputNode => {
                names.push("notes".to_owned());
            },
            _ => {},
        }
        names
    }

    /// The name by which this kind is known to observers.
    pub fn name(self) -> (s: String)
        ensures
            s@ == self.kind_name(),
    {
        match self {
            NodeType::EmptyNode => "EmptyNode".to_owned(),
            NodeType::BufferInputNode => "BufferInputNode".to_owned(),
            NodeType::BufferOutputNode => "BufferOutputNode".to_owned(),
            NodeType::AudioShaderNode => "AudioShaderNode".to_owned(),
            NodeType::NoteInputNode => "NoteInputNode".to_owned(),
        }
    }
}

/// Every declared port name has a tag, and no other name has one.
pub proof fn lemma_port_names_have_tags(kind: NodeType, name: Seq<char>)
    ensures
        kind.input_tag(name).is_some() <==> kind.input_names().contains(name),
        kind.output_tag(name).is_some() <==> kind.output_names().contains(name),
{
    match kind {
        NodeType::BufferOutputNode => {
            assert(seq!["audio"@][0] == "audio"@);
        },
        NodeType::AudioShaderNode => {
            assert(seq!["audio"@, "notes"@][0] == "audio"@);
            assert(seq!["audio"@, "notes"@][1] == "notes"@);
            assert(seq!["audio"@][0] == "audio"@);
        },
        NodeType::BufferInputNode => {
            assert(seq!["audio"@][0] == "audio"@);
        },
        NodeType::NoteInputNode => {
            assert(seq!["notes"@][0] == "notes"@);
        },
        NodeType::EmptyNode => {},
    }
}

/// A constant input of a node: the port's name and the value set for it.
pub struct Constant {
    pub key: String,
    pub value: Value,
}

/// What a `Constant` stands for in contracts.
pub struct ConstantView {
    pub key: Seq<char>,
    pub value: ValueView,
}

impl View for Constant {
    type V = ConstantView;

    open spec fn view(&self) -> ConstantView {
        ConstantView { key: self.key@, value: self.value@ }
    }
}

/// A node of a processing graph.
pub struct Node {
    id: NodeId,
    kind: NodeType,
    shader: String,
    constants: Vec<Constant>,
}

/// What a `Node` stands for in contracts.
pub struct NodeView {
    pub id: NodeId,
    pub kind: NodeType,
    pub shader: Seq<char>,
    pub constants: Seq<ConstantView>,
}

impl NodeView {
    /// No key is set twice, and every key names a declared input.
    pub open spec fn wf(self) -> bool {
        &&& forall|i: int, j: int|
            0 <= i < j < self.constants.len() ==> self.constants[i].key != self.constants[j].key
        &&& forall|i: int|
            0 <= i < self.constants.len() ==> self.kind.input_tag(
                #[trigger] self.constants[i].key,
            ).is_some()
    }

    /// True when a constant is set for `key`.
    pub open spec fn has_constant(self, key: Seq<char>) -> bool {
        exists|i: int| 0 <= i < self.constants.len() && self.constants[i].key == key
    }

    /// The value set for `key`.
    pub open spec fn constant(self, key: Seq<char>) -> ValueView
        recommends
            self.has_constant(key),
    {
        self.constants[choose|i: int| 0 <= i < self.constants.len() && self.constants[i].key == key].value
    }

    /// This node after `value` was set for `key`.
    pub open spec fn with_constant(self, key: Seq<char>, value: ValueView) -> NodeView {
        let c = ConstantView { key, value };
        if self.has_constant(key) {
            let i = choose|i: int| 0 <= i < self.constants.len() && self.constants[i].key == key;
            NodeView { constants: self.constants.update(i, c), ..self }
        } else {
            NodeView { constants: self.constants.push(c), ..self }
        }
    }
}

impl View for Node {
    type V = NodeView;

    closed spec fn view(&self) -> NodeView {
        NodeView {
            id: self.id,
            kind: self.kind,
            shader: self.shader@,
            constants: Seq::new(self.constants@.len(), |i: int| self.constants@[i]@),
        }
    }
}

impl Node {
    /// A node keeps its constants well-formed.
    pub open spec fn wf(&self) -> bool {
        self@.wf()
    }

    /// A node of kind `kind` with no constant set and an empty shader.
    pub fn new(id: NodeId, kind: NodeType) -> (node: Node)
        ensures
            node.wf(),
            node@ == (NodeView { id, kind, shader: Seq::empty(), constants: Seq::empty() }),
    {
        let node = Node { id, kind, shader: String::new(), constants: Vec::new() };
        assert(node@.constants =~= Seq::empty());
        node
    }

    /// The node's id.
    pub fn id(&self) -> (id: NodeId)
        ensures
            id == self@.id,
    {
        self.id
    }

    /// The node's kind.
    pub fn kind(&self) -> (kind: NodeType)
        ensures
            kind == self@.kind,
    {
        self.kind
    }

    /// True for the entry node of a graph.
    pub fn is_input(&self) -> (r: bool)
        ensures
            r == self@.kind.is_input(),
    {
        match self.kind {
            NodeType::BufferInputNode => true,
            _ => false,
        }
    }

    /// True for the exit node of a graph.
    pub fn is_output(&self) -> (r: bool)
        ensures
            r == self@.kind.is_output(),
    {
        match self.kind {
            NodeType::BufferOutputNode => true,
            _ => false,
        }
    }

    /// The shader source the node holds.
    pub fn shader(&self) -> (source: &String)
        ensures
            source@ == self@.shader,
    {
        &self.shader
    }

    /// The position of the constant set for `key`, if there is one.
    fn find_constant(&self, key: &String) -> (found: Option<usize>)
        ensures
            match found {
                Some(i) => i < self@.constants.len() && self@.constants[i as int].key == key@,
                None => !self@.has_constant(key@),
            },
    {
        let mut i: usize = 0;
        while i < self.constants.len()
            invariant
                i <= self.constants@.len(),
                self@.constants.len() == self.constants@.len(),
                forall|j: int| 0 <= j < i ==> self@.constants[j].key != key@,
            decreases self.constants@.len() - i,
        {
            if self.constants[i].key == *key {
                return Some(i);
            }
            i += 1;
        }
        None
    }

    /// The value set for the input `key`, if one is set.
    pub fn input_constant(&self, key: &String) -> (value: Option<Value>)
        requires
            self.wf(),
        ensures
            value.is_some() == self@.has_constant(key@),
            value matches Some(v) ==> v@ == self@.constant(key@),
    {
        match self.find_constant(key) {
            Some(i) => {
                let v = self.constants[i].value.clone();
                proof {
                    let k = choose|k: int|
                        0 <= k < self@.constants.len() && self@.constants[k].key == key@;
                    assert(k == i);
                }
                Some(v)
            },
            None => None,
        }
    }

    /// Sets the constant for the input `key`, replacing an earlier one. A key
    /// that names no declared input is refused and changes nothing.
    pub fn set_input(&mut self, key: String, value: Value) -> (res: Result<(), NodeError>)
        requires
            old(self).wf(),
        ensures
            final(self).wf(),
            old(self)@.kind.input_tag(key@).is_none() ==> res == Err::<(), NodeError>(
                NodeError::UnknownPort,
            ) && final(self)@ == old(self)@,
            old(self)@.kind.input_tag(key@).is_some() ==> res.is_ok() && final(self)@ == old(
                self,
            )@.with_constant(key@, value@),
    {
        if self.kind.find_input(&key).is_none() {
            return Err(NodeError::UnknownPort);
        }
        let ghost before = self@;
        let ghost c = ConstantView { key: key@, value: value@ };
        match self.find_constant(&key) {
            Some(i) => {
                proof {
                    let k = choose|k: int|
                        0 <= k < before.constants.len() && before.constants[k].key == key@;
                    assert(k == i);
                }
                self.constants.set(i, Constant { key, value });
                assert(self@.constants =~= before.constants.update(i as int, c));
            },
            None => {
                self.constants.push(Constant { key, value });
                assert(self@.constants =~= before.constants.push(c));
            },
        }
        Ok(())
    }

    /// Stores `source` as the node's shader. A node that is no audio shader
    /// refuses and changes nothing.
    pub fn set_shader(&mut self, source: String) -> (res: Result<(), NodeError>)
        ensures
            old(self)@.kind != NodeType::AudioShaderNode ==> res == Err::<(), NodeError>(
                NodeError::NotAShader,
            ) && final(self)@ == old(self)@,
            old(self)@.kind == NodeType::AudioShaderNode ==> res.is_ok() && final(self)@ == (
                NodeView { shader: source@, ..old(self)@ }
            ),
            old(self).wf() ==> final(self).wf(),
    {
        match self.kind {
            NodeType::AudioShaderNode => {
                self.shader = source;
                Ok(())
            },
            _ => Err(NodeError::NotAShader),
        }
    }
}

/// A node stays well-formed when a constant is set for a declared input.
pub proof fn lemma_with_constant_wf(n: NodeView, key: Seq<char>, value: ValueView)
    requires
        n.wf(),
        n.kind.input_tag(key).is_some(),
    ensures
        n.with_constant(key, value).wf(),
        n.with_constant(key, value).id == n.id,
        n.with_constant(key, value).kind == n.kind,
{
    let m = n.with_constant(key, value);
    if n.has_constant(key) {
        let k = choose|i: int| 0 <= i < n.constants.len() && n.constants[i].key == key;
        assert forall|i: int, j: int| 0 <= i < j < m.constants.len() implies m.constants[i].key
            != m.constants[j].key by {
            assert(m.constants[i].key == n.constants[i].key);
            assert(m.constants[j].key == n.constants[j].key);
        }
        assert forall|i: int| 0 <= i < m.constants.len() implies m.kind.input_tag(
            #[trigger] m.constants[i].key,
        ).is_some() by {
            assert(m.constants[i].key == n.constants[i].key);
        }
    } else {
        let len = n.constants.len() as int;
        assert forall|i: int, j: int| 0 <= i < j < m.constants.len() implies m.constants[i].key
            != m.constants[j].key by {
            assert(m.constants[i] == n.constants[i]);
            if j < len {
                assert(m.constants[j] == n.constants[j]);
            }
        }
        assert forall|i: int| 0 <= i < m.constants.len() implies m.kind.input_tag(
            #[trigger] m.constants[i].key,
        ).is_some() by {
            if i < len {
                assert(m.constants[i] == n.constants[i]);
            }
        }
    }
}

impl Clone for Constant {
    fn clone(&self) -> (c: Constant)
        ensures
            c@ == self@,
    {
        Constant { key: self.key.clone(), value: self.value.clone() }
    }
}

impl Clone for Node {
    fn clone(&self) -> (node: Node)
        ensures
            node@ == self@,
    {
        let mut constants: Vec<Constant> = Vec::new();
        let mut i: usize = 0;
        while i < self.constants.len()
            invariant
                i <= self.constants@.len(),
                constants@.len() == i,
                forall|j: int| 0 <= j < i ==> (#[trigger] constants@[j])@ == self.constants@[j]@,
            decreases self.constants@.len() - i,
        {
            constants.push(self.constants[i].clone());
            i += 1;
        }
        let node = Node { id: self.id, kind: self.kind, shader: self.shader.clone(), constants };
        assert(node@.constants =~= self@.constants);
        node
    }
}

} // verus!
