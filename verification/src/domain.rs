//! Core domain models — node and relation kinds, their type-specific
//! properties, and the names under which they are stored and exchanged.
use vstd::prelude::*;

use crate::text::str_eq;

verus! {

// ---------------------------------------------------------------------------
// Node type
// ---------------------------------------------------------------------------

/// The eight kinds of investigation node.
#[derive(Clone, Copy, Debug, PartialEq, Eq, Hash, Structural)]
pub enum NodeType {
    IpAddress,
    Domain,
    FileHash,
    Process,
    Malware,
    Ttp,
    ThreatActor,
    Asset,
}

/// The human-readable (Chinese) name of a node type.
pub open spec fn node_type_display(t: NodeType) -> Seq<char> {
    match t {
        NodeType::IpAddress => "IP 地址"@,
        NodeType::Domain => "域名"@,
        NodeType::FileHash => "文件哈希"@,
        NodeType::Process => "进程"@,
        NodeType::Malware => "恶意软件"@,
        NodeType::Ttp => "攻击技术"@,
        NodeType::ThreatActor => "威胁组织"@,
        NodeType::Asset => "资产"@,
    }
}

/// The icon key of a node type.
pub open spec fn node_type_icon(t: NodeType) -> Seq<char> {
    match t {
        NodeType::IpAddress => "ip"@,
        NodeType::Domain => "domain"@,
        NodeType::FileHash => "file-hash"@,
        NodeType::Process => "process"@,
        NodeType::Malware => "malware"@,
        NodeType::Ttp => "ttp"@,
        NodeType::ThreatActor => "threat-actor"@,
        NodeType::Asset => "asset"@,
    }
}

/// The snake_case name a node type is stored and exchanged under.
pub open spec fn node_type_snake(t: NodeType) -> Seq<char> {
    match t {
        NodeType::IpAddress => "ip_address"@,
        NodeType::Domain => "domain"@,
        NodeType::FileHash => "file_hash"@,
        NodeType::Process => "process"@,
        NodeType::Malware => "malware"@,
        NodeType::Ttp => "ttp"@,
        NodeType::ThreatActor => "threat_actor"@,
        NodeType::Asset => "asset"@,
    }
}

/// The variant name (CamelCase) of a node type.
pub open spec fn node_type_variant(t: NodeType) -> Seq<char> {
    match t {
        NodeType::IpAddress => "IpAddress"@,
        NodeType::Domain => "Domain"@,
        NodeType::FileHash => "FileHash"@,
        NodeType::Process => "Process"@,
        NodeType::Malware => "Malware"@,
        NodeType::Ttp => "Ttp"@,
        NodeType::ThreatActor => "ThreatActor"@,
        NodeType::Asset => "Asset"@,
    }
}

/// The node type whose snake_case name is `s`, if any.
pub open spec fn node_type_by_snake(s: Seq<char>) -> Option<NodeType> {
    if s == "ip_address"@ {
        Some(NodeType::IpAddress)
    } else if s == "domain"@ {
        Some(NodeType::Domain)
    } else if s == "file_hash"@ {
        Some(NodeType::FileHash)
    } else if s == "process"@ {
        Some(NodeType::Process)
    } else if s == "malware"@ {
        Some(NodeType::Malware)
    } else if s == "ttp"@ {
        Some(NodeType::Ttp)
    } else if s == "threat_actor"@ {
        Some(NodeType::ThreatActor)
    } else if s == "asset"@ {
        Some(NodeType::Asset)
    } else {
        None
    }
}

/// The node type whose variant name is `s`, if any.
pub open spec fn node_type_by_variant(s: Seq<char>) -> Option<NodeType> {
    if s == "IpAddress"@ {
        Some(NodeType::IpAddress)
    } else if s == "Domain"@ {
        Some(NodeType::Domain)
    } else if s == "FileHash"@ {
        Some(NodeType::FileHash)
    } else if s == "Process"@ {
        Some(NodeType::Process)
    } else if s == "Malware"@ {
        Some(NodeType::Malware)
    } else if s == "Ttp"@ {
        Some(NodeType::Ttp)
    } else if s == "ThreatActor"@ {
        Some(NodeType::ThreatActor)
    } else if s == "Asset"@ {
        Some(NodeType::Asset)
    } else {
        None
    }
}

/// The node type named `s` in either spelling, the variant name first.
pub open spec fn node_type_by_name(s: Seq<char>) -> Option<NodeType> {
    match node_type_by_variant(s) {
        Some(t) => Some(t),
        None => node_type_by_snake(s),
    }
}

impl NodeType {
    pub fn display_name(&self) -> (r: &'static str)
        ensures
            r@ == node_type_display(*self),
    {
        match self {
            NodeType::IpAddress => "IP 地址",
            NodeType::Domain => "域名",
            NodeType::FileHash => "文件哈希",
            NodeType::Process => "进程",
            NodeType::Malware => "恶意软件",
            NodeType::Ttp => "攻击技术",
            NodeType::ThreatActor => "威胁组织",
            NodeType::Asset => "资产",
        }
    }

    pub fn icon(&self) -> (r: &'static str)
        ensures
            r@ == node_type_icon(*self),
    {
        match self {
            NodeType::IpAddress => "ip",
            NodeType::Domain => "domain",
            NodeType::FileHash => "file-hash",
            NodeType::Process => "process",
            NodeType::Malware => "malware",
            NodeType::Ttp => "ttp",
            NodeType::ThreatActor => "threat-actor",
            NodeType::Asset => "asset",
        }
    }

    /// The snake_case name the node type is stored and exchanged under.
    pub fn snake_name(&self) -> (r: &'static str)
        ensures
            r@ == node_type_snake(*self),
    {
        match self {
            NodeType::IpAddress => "ip_address",
            NodeType::Domain => "domain",
            NodeType::FileHash => "file_hash",
            NodeType::Process => "process",
            NodeType::Malware => "malware",
            NodeType::Ttp => "ttp",
            NodeType::ThreatActor => "threat_actor",
            NodeType::Asset => "asset",
        }
    }

    /// The variant name of the node type.
    pub fn variant_name(&self) -> (r: &'static str)
        ensures
            r@ == node_type_variant(*self),
    {
        match self {
            NodeType::IpAddress => "IpAddress",
            NodeType::Domain => "Domain",
            NodeType::FileHash => "FileHash",
            NodeType::Process => "Process",
            NodeType::Malware => "Malware",
            NodeType::Ttp => "Ttp",
            NodeType::ThreatActor => "ThreatActor",
            NodeType::Asset => "Asset",
        }
    }

    /// The node type with the given snake_case name.
    pub fn from_snake_name(value: &str) -> (r: Option<NodeType>)
        ensures
            r == node_type_by_snake(value@),
    {
        if str_eq(value, "ip_address") {
            Some(NodeType::IpAddress)
        } else if str_eq(value, "domain") {
            Some(NodeType::Domain)
        } else if str_eq(value, "file_hash") {
            Some(NodeType::FileHash)
        } else if str_eq(value, "process") {
            Some(NodeType::Process)
        } else if str_eq(value, "malware") {
            Some(NodeType::Malware)
        } else if str_eq(value, "ttp") {
            Some(NodeType::Ttp)
        } else if str_eq(value, "threat_actor") {
            Some(NodeType::ThreatActor)
        } else if str_eq(value, "asset") {
            Some(NodeType::Asset)
        } else {
            None
        }
    }

    /// The node type with the given variant name.
    pub fn from_variant_name(value: &str) -> (r: Option<NodeType>)
        ensures
            r == node_type_by_variant(value@),
    {
        if str_eq(value, "IpAddress") {
            Some(NodeType::IpAddress)
        } else if str_eq(value, "Domain") {
            Some(NodeType::Domain)
        } else if str_eq(value, "FileHash") {
            Some(NodeType::FileHash)
        } else if str_eq(value, "Process") {
            Some(NodeType::Process)
        } else if str_eq(value, "Malware") {
            Some(NodeType::Malware)
        } else if str_eq(value, "Ttp") {
            Some(NodeType::Ttp)
        } else if str_eq(value, "ThreatActor") {
            Some(NodeType::ThreatActor)
        } else if str_eq(value, "Asset") {
            Some(NodeType::Asset)
        } else {
            None
        }
    }

    /// The node type named `value` by its variant name or its snake_case name.
    pub fn from_name(value: &str) -> (r: Option<NodeType>)
        ensures
            r == node_type_by_name(value@),
    {
        match NodeType::from_variant_name(value) {
            Some(t) => Some(t),
            None => NodeType::from_snake_name(value),
        }
    }
}

// ---------------------------------------------------------------------------
// Relation type
// ---------------------------------------------------------------------------

/// The seven kinds of directed relation between nodes.
#[derive(Clone, Copy, Debug, PartialEq, Eq, Hash, Structural)]
pub enum RelationType {
    ConnectsTo,
    ResolvesTo,
    Creates,
    BelongsTo,
    Uses,
    Targets,
    Contains,
}

/// The human-readable (Chinese) name of a relation type.
pub open spec fn relation_type_display(t: RelationType) -> Seq<char> {
    match t {
        RelationType::ConnectsTo => "网络连接"@,
        RelationType::ResolvesTo => "DNS 解析"@,
        RelationType::Creates => "创建"@,
        RelationType::BelongsTo => "归属于"@,
        RelationType::Uses => "使用技术"@,
        RelationType::Targets => "攻击目标"@,
        RelationType::Contains => "包含"@,
    }
}

/// The snake_case name a relation type is stored and exchanged under.
pub open spec fn relation_type_snake(t: RelationType) -> Seq<char> {
    match t {
        RelationType::ConnectsTo => "connects_to"@,
        RelationType::ResolvesTo => "resolves_to"@,
        RelationType::Creates => "creates"@,
        RelationType::BelongsTo => "belongs_to"@,
        RelationType::Uses => "uses"@,
        RelationType::Targets => "targets"@,
        RelationType::Contains => "contains"@,
    }
}

/// The variant name (CamelCase) of a relation type.
pub open spec fn relation_type_variant(t: RelationType) -> Seq<char> {
    match t {
        RelationType::ConnectsTo => "ConnectsTo"@,
        RelationType::ResolvesTo => "ResolvesTo"@,
        RelationType::Creates => "Creates"@,
        RelationType::BelongsTo => "BelongsTo"@,
        RelationType::Uses => "Uses"@,
        RelationType::Targets => "Targets"@,
        RelationType::Contains => "Contains"@,
    }
}

/// The relation type whose snake_case name is `s`, if any.
pub open spec fn relation_type_by_snake(s: Seq<char>) -> Option<RelationType> {
    if s == "connects_to"@ {
        Some(RelationType::ConnectsTo)
    } else if s == "resolves_to"@ {
        Some(RelationType::ResolvesTo)
    } else if s == "creates"@ {
        Some(RelationType::Creates)
    } else if s == "belongs_to"@ {
        Some(RelationType::BelongsTo)
    } else if s == "uses"@ {
        Some(RelationType::Uses)
    } else if s == "targets"@ {
        Some(RelationType::Targets)
    } else if s == "contains"@ {
        Some(RelationType::Contains)
    } else {
        None
    }
}

/// The relation type whose variant name is `s`, if any.
pub open spec fn relation_type_by_variant(s: Seq<char>) -> Option<RelationType> {
    if s == "ConnectsTo"@ {
        Some(RelationType::ConnectsTo)
    } else if s == "ResolvesTo"@ {
        Some(RelationType::ResolvesTo)
    } else if s == "Creates"@ {
        Some(RelationType::Creates)
    } else if s == "BelongsTo"@ {
        Some(RelationType::BelongsTo)
    } else if s == "Uses"@ {
        Some(RelationType::Uses)
    } else if s == "Targets"@ {
        Some(RelationType::Targets)
    } else if s == "Contains"@ {
        Some(RelationType::Contains)
    } else {
        None
    }
}

/// The relation type named `s` in either spelling, the variant name first.
pub open spec fn relation_type_by_name(s: Seq<char>) -> Option<RelationType> {
    match relation_type_by_variant(s) {
        Some(t) => Some(t),
        None => relation_type_by_snake(s),
    }
}

impl RelationType {
    pub fn display_name(&self) -> (r: &'static str)
        ensures
            r@ == relation_type_display(*self),
    {
        match self {
            RelationType::ConnectsTo => "网络连接",
            RelationType::ResolvesTo => "DNS 解析",
            RelationType::Creates => "创建",
            RelationType::BelongsTo => "归属于",
            RelationType::Uses => "使用技术",
            RelationType::Targets => "攻击目标",
            RelationType::Contains => "包含",
        }
    }

    /// Every relation type is directed.
    pub fn is_directed(&self) -> (r: bool)
        ensures
            r,
    {
        match self {
            RelationType::ConnectsTo | RelationType::ResolvesTo | RelationType::Creates
            | RelationType::BelongsTo | RelationType::Uses | RelationType::Targets
            | RelationType::Contains => true,
        }
    }

    /// The snake_case name the relation type is stored and exchanged under.
    pub fn snake_name(&self) -> (r: &'static str)
        ensures
            r@ == relation_type_snake(*self),
    {
        match self {
            RelationType::ConnectsTo => "connects_to",
            RelationType::ResolvesTo => "resolves_to",
            RelationType::Creates => "creates",
            RelationType::BelongsTo => "belongs_to",
            RelationType::Uses => "uses",
            RelationType::Targets => "targets",
            RelationType::Contains => "contains",
        }
    }

    /// The variant name of the relation type.
    pub fn variant_name(&self) -> (r: &'static str)
        ensures
            r@ == relation_type_variant(*self),
    {
        match self {
            RelationType::ConnectsTo => "ConnectsTo",
            RelationType::ResolvesTo => "ResolvesTo",
            RelationType::Creates => "Creates",
            RelationType::BelongsTo => "BelongsTo",
            RelationType::Uses => "Uses",
            RelationType::Targets => "Targets",
            RelationType::Contains => "Contains",
        }
    }

    /// The relation type with the given snake_case name.
    pub fn from_snake_name(value: &str) -> (r: Option<RelationType>)
        ensures
            r == relation_type_by_snake(value@),
    {
        if str_eq(value, "connects_to") {
            Some(RelationType::ConnectsTo)
        } else if str_eq(value, "resolves_to") {
            Some(RelationType::ResolvesTo)
        } else if str_eq(value, "creates") {
            Some(RelationType::Creates)
        } else if str_eq(value, "belongs_to") {
            Some(RelationType::BelongsTo)
        } else if str_eq(value, "uses") {
            Some(RelationType::Uses)
        } else if str_eq(value, "targets") {
            Some(RelationType::Targets)
        } else if str_eq(value, "contains") {
            Some(RelationType::Contains)
        } else {
            None
        }
    }

    /// The relation type with the given variant name.
    pub fn from_variant_name(value: &str) -> (r: Option<RelationType>)
        ensures
            r == relation_type_by_variant(value@),
    {
        if str_eq(value, "ConnectsTo") {
            Some(RelationType::ConnectsTo)
        } else if str_eq(value, "ResolvesTo") {
            Some(RelationType::ResolvesTo)
        } else if str_eq(value, "Creates") {
            Some(RelationType::Creates)
        } else if str_eq(value, "BelongsTo") {
            Some(RelationType::BelongsTo)
        } else if str_eq(value, "Uses") {
            Some(RelationType::Uses)
        } else if str_eq(value, "Targets") {
            Some(RelationType::Targets)
        } else if str_eq(value, "Contains") {
            Some(RelationType::Contains)
        } else {
            None
        }
    }

    /// The relation type named `value` by its variant name or its snake_case name.
    pub fn from_name(value: &str) -> (r: Option<RelationType>)
        ensures
            r == relation_type_by_name(value@),
    {
        match RelationType::from_variant_name(value) {
            Some(t) => Some(t),
            None => RelationType::from_snake_name(value),
        }
    }
}

/// Naming a node type and reading the name back gives the same type, in
/// either spelling.
pub proof fn lemma_node_type_names_round_trip(t: NodeType)
    ensures
        node_type_by_snake(node_type_snake(t)) == Some(t),
        node_type_by_variant(node_type_variant(t)) == Some(t),
        node_type_by_name(node_type_snake(t)) == Some(t),
        node_type_by_name(node_type_variant(t)) == Some(t),
{
    let snakes = seq![
        "ip_address"@,
        "domain"@,
        "file_hash"@,
        "process"@,
        "malware"@,
        "ttp"@,
        "threat_actor"@,
        "asset"@,
    ];
    let variants = seq![
        "IpAddress"@,
        "Domain"@,
        "FileHash"@,
        "Process"@,
        "Malware"@,
        "Ttp"@,
        "ThreatActor"@,
        "Asset"@,
    ];
    reveal_strlit("ip_address");
    reveal_strlit("domain");
    reveal_strlit("file_hash");
    reveal_strlit("process");
    reveal_strlit("malware");
    reveal_strlit("ttp");
    reveal_strlit("threat_actor");
    reveal_strlit("asset");
    reveal_strlit("IpAddress");
    reveal_strlit("Domain");
    reveal_strlit("FileHash");
    reveal_strlit("Process");
    reveal_strlit("Malware");
    reveal_strlit("Ttp");
    reveal_strlit("ThreatActor");
    reveal_strlit("Asset");
    assert forall|i: int, j: int| 0 <= i < 8 && 0 <= j < 8 && i != j implies snakes[i] != snakes[j]
        && variants[i] != variants[j] && snakes[i] != variants[j] by {
        assert(snakes[i].len() != snakes[j].len() || snakes[i][0] != snakes[j][0]);
        assert(variants[i].len() != variants[j].len() || variants[i][0] != variants[j][0]);
        assert(snakes[i][0] != variants[j][0]);
    }
    assert forall|i: int| 0 <= i < 8 implies snakes[i] != variants[i] by {
        assert(snakes[i][0] != variants[i][0]);
    }
}

/// Naming a relation type and reading the name back gives the same type,
/// in either spelling.
pub proof fn lemma_relation_type_names_round_trip(t: RelationType)
    ensures
        relation_type_by_snake(relation_type_snake(t)) == Some(t),
        relation_type_by_variant(relation_type_variant(t)) == Some(t),
        relation_type_by_name(relation_type_snake(t)) == Some(t),
        relation_type_by_name(relation_type_variant(t)) == Some(t),
{
    let snakes = seq![
        "connects_to"@,
        "resolves_to"@,
        "creates"@,
        "belongs_to"@,
        "uses"@,
        "targets"@,
        "contains"@,
    ];
    let variants = seq![
        "ConnectsTo"@,
        "ResolvesTo"@,
        "Creates"@,
        "BelongsTo"@,
        "Uses"@,
        "Targets"@,
        "Contains"@,
    ];
    reveal_strlit("connects_to");
    reveal_strlit("resolves_to");
    reveal_strlit("creates");
    reveal_strlit("belongs_to");
    reveal_strlit("uses");
    reveal_strlit("targets");
    reveal_strlit("contains");
    reveal_strlit("ConnectsTo");
    reveal_strlit("ResolvesTo");
    reveal_strlit("Creates");
    reveal_strlit("BelongsTo");
    reveal_strlit("Uses");
    reveal_strlit("Targets");
    reveal_strlit("Contains");
    assert forall|i: int, j: int| 0 <= i < 7 && 0 <= j < 7 && i != j implies snakes[i] != snakes[j]
        && variants[i] != variants[j] && snakes[i] != variants[j] by {
        assert(snakes[i].len() != snakes[j].len() || snakes[i][0] != snakes[j][0] || snakes[i][2]
            != snakes[j][2]);
        assert(variants[i].len() != variants[j].len() || variants[i][0] != variants[j][0]
            || variants[i][2] != variants[j][2]);
        assert(snakes[i][0] != variants[j][0]);
    }
    assert forall|i: int| 0 <= i < 7 implies snakes[i] != variants[i] by {
        assert(snakes[i][0] != variants[i][0]);
    }
}

// ---------------------------------------------------------------------------
// Type-specific property structs
// ---------------------------------------------------------------------------

/// Reputation verdict for an IP address.
#[derive(Clone, Copy, Debug, PartialEq, Eq, Structural)]
pub enum Reputation {
    Clean,
    Suspicious,
    Malicious,
    Unknown,
}

/// Hash algorithm of a file hash (MD5 when unspecified).
#[derive(Clone, Copy, Debug, PartialEq, Eq, Structural)]
pub enum HashAlgorithm {
    MD5,
    SHA1,
    SHA256,
}

impl Default for HashAlgorithm {
    fn default() -> (r: Self)
        ensures
            r == HashAlgorithm::MD5,
    {
        HashAlgorithm::MD5
    }
}

#[derive(Clone, Debug)]
pub struct IpAddressProps {
    pub address: String,
    pub version: Option<String>,
    pub geo_location: Option<String>,
    pub asn: Option<String>,
    pub isp: Option<String>,
    pub reputation: Option<Reputation>,
}

#[derive(Clone, Debug)]
pub struct DomainProps {
    pub domain: String,
    pub registrar: Option<String>,
    pub creation_date: Option<String>,
}

#[derive(Clone, Debug)]
pub struct FileHashProps {
    pub hash_value: String,
    pub algorithm: HashAlgorithm,
    pub file_name: Option<String>,
    pub file_size: Option<u64>,
    pub file_type: Option<String>,
    pub malware_classification: Option<String>,
}

#[derive(Clone, Debug)]
pub struct ProcessProps {
    pub process_name: String,
    pub pid: Option<u32>,
    pub command_line: Option<String>,
    pub parent_process: Option<String>,
    pub user: Option<String>,
}

#[derive(Clone, Debug)]
pub struct MalwareProps {
    pub family_name: String,
    pub aliases: Vec<String>,
    pub malware_type: Option<String>,
    pub first_seen: Option<String>,
}

#[derive(Clone, Debug)]
pub struct TtpProps {
    pub mitre_id: String,
    pub tactic: Option<String>,
    pub platform: Vec<String>,
    pub data_source: Vec<String>,
}

#[derive(Clone, Debug)]
pub struct ThreatActorProps {
    pub name: String,
    pub aliases: Vec<String>,
    pub motivation: Option<String>,
    pub sophistication: Option<String>,
    pub targets: Vec<String>,
}

#[derive(Clone, Debug)]
pub struct AssetProps {
    pub hostname: String,
    pub os: Option<String>,
    pub ip_addresses: Vec<String>,
    pub owner: Option<String>,
    pub criticality: Option<String>,
}

/// The empty IP-address properties.
pub open spec fn ip_props_empty(p: IpAddressProps) -> bool {
    &&& p.address@ == Seq::<char>::empty()
    &&& p.version is None
    &&& p.geo_location is None
    &&& p.asn is None
    &&& p.isp is None
    &&& p.reputation is None
}

pub open spec fn domain_props_empty(p: DomainProps) -> bool {
    &&& p.domain@ == Seq::<char>::empty()
    &&& p.registrar is None
    &&& p.creation_date is None
}

pub open spec fn file_hash_props_empty(p: FileHashProps) -> bool {
    &&& p.hash_value@ == Seq::<char>::empty()
    &&& p.algorithm == HashAlgorithm::MD5
    &&& p.file_name is None
    &&& p.file_size is None
    &&& p.file_type is None
    &&& p.malware_classification is None
}

pub open spec fn process_props_empty(p: ProcessProps) -> bool {
    &&& p.process_name@ == Seq::<char>::empty()
    &&& p.pid is None
    &&& p.command_line is None
    &&& p.parent_process is None
    &&& p.user is None
}

pub open spec fn malware_props_empty(p: MalwareProps) -> bool {
    &&& p.family_name@ == Seq::<char>::empty()
    &&& p.aliases@.len() == 0
    &&& p.malware_type is None
    &&& p.first_seen is None
}

pub open spec fn ttp_props_empty(p: TtpProps) -> bool {
    &&& p.mitre_id@ == Seq::<char>::empty()
    &&& p.tactic is None
    &&& p.platform@.len() == 0
    &&& p.data_source@.len() == 0
}

pub open spec fn threat_actor_props_empty(p: ThreatActorProps) -> bool {
    &&& p.name@ == Seq::<char>::empty()
    &&& p.aliases@.len() == 0
    &&& p.motivation is None
    &&& p.sophistication is None
    &&& p.targets@.len() == 0
}

pub open spec fn asset_props_empty(p: AssetProps) -> bool {
    &&& p.hostname@ == Seq::<char>::empty()
    &&& p.os is None
    &&& p.ip_addresses@.len() == 0
    &&& p.owner is None
    &&& p.criticality is None
}

impl Default for IpAddressProps {
    fn default() -> (r: Self)
        ensures
            ip_props_empty(r),
    {
        IpAddressProps {
            address: String::new(),
            version: None,
            geo_location: None,
            asn: None,
            isp: None,
            reputation: None,
        }
    }
}

impl Default for DomainProps {
    fn default() -> (r: Self)
        ensures
            domain_props_empty(r),
    {
        DomainProps { domain: String::new(), registrar: None, creation_date: None }
    }
}

impl Default for FileHashProps {
    fn default() -> (r: Self)
        ensures
            file_hash_props_empty(r),
    {
        FileHashProps {
            hash_value: String::new(),
            algorithm: HashAlgorithm::MD5,
            file_name: None,
            file_size: None,
            file_type: None,
            malware_classification: None,
        }
    }
}

impl Default for ProcessProps {
    fn default() -> (r: Self)
        ensures
            process_props_empty(r),
    {
        ProcessProps {
            process_name: String::new(),
            pid: None,
            command_line: None,
            parent_process: None,
            user: None,
        }
    }
}

impl Default for MalwareProps {
    fn default() -> (r: Self)
        ensures
            malware_props_empty(r),
    {
        MalwareProps {
            family_name: String::new(),
            aliases: Vec::new(),
            malware_type: None,
            first_seen: None,
        }
    }
}

impl Default for TtpProps {
    fn default() -> (r: Self)
        ensures
            ttp_props_empty(r),
    {
        TtpProps { mitre_id: String::new(), tactic: None, platform: Vec::new(), data_source: Vec::new() }
    }
}

impl Default for ThreatActorProps {
    fn default() -> (r: Self)
        ensures
            threat_actor_props_empty(r),
    {
        ThreatActorProps {
            name: String::new(),
            aliases: Vec::new(),
            motivation: None,
            sophistication: None,
            targets: Vec::new(),
        }
    }
}

impl Default for AssetProps {
    fn default() -> (r: Self)
        ensures
            asset_props_empty(r),
    {
        AssetProps {
            hostname: String::new(),
            os: None,
            ip_addresses: Vec::new(),
            owner: None,
            criticality: None,
        }
    }
}

// ---------------------------------------------------------------------------
// Tagged union of type-specific properties
// ---------------------------------------------------------------------------

#[derive(Clone, Debug)]
pub enum TypeSpecificProps {
    IpAddress(IpAddressProps),
    Domain(DomainProps),
    FileHash(FileHashProps),
    Process(ProcessProps),
    Malware(MalwareProps),
    Ttp(TtpProps),
    ThreatActor(ThreatActorProps),
    Asset(AssetProps),
}

/// The node type a property set belongs to.
pub open spec fn props_kind(p: TypeSpecificProps) -> NodeType {
    match p {
        TypeSpecificProps::IpAddress(_) => NodeType::IpAddress,
        TypeSpecificProps::Domain(_) => NodeType::Domain,
        TypeSpecificProps::FileHash(_) => NodeType::FileHash,
        TypeSpecificProps::Process(_) => NodeType::Process,
        TypeSpecificProps::Malware(_) => NodeType::Malware,
        TypeSpecificProps::Ttp(_) => NodeType::Ttp,
        TypeSpecificProps::ThreatActor(_) => NodeType::ThreatActor,
        TypeSpecificProps::Asset(_) => NodeType::Asset,
    }
}

/// Every field of the property set is empty (MD5 for a hash algorithm).
pub open spec fn props_empty(p: TypeSpecificProps) -> bool {
    match p {
        TypeSpecificProps::IpAddress(q) => ip_props_empty(q),
        TypeSpecificProps::Domain(q) => domain_props_empty(q),
        TypeSpecificProps::FileHash(q) => file_hash_props_empty(q),
        TypeSpecificProps::Process(q) => process_props_empty(q),
        TypeSpecificProps::Malware(q) => malware_props_empty(q),
        TypeSpecificProps::Ttp(q) => ttp_props_empty(q),
        TypeSpecificProps::ThreatActor(q) => threat_actor_props_empty(q),
        TypeSpecificProps::Asset(q) => asset_props_empty(q),
    }
}

/// The identifying field of a property set: the address, domain, hash
/// value, process name, family name, MITRE ID, actor name or host name.
pub open spec fn props_key(p: TypeSpecificProps) -> Seq<char> {
    match p {
        TypeSpecificProps::IpAddress(q) => q.address@,
        TypeSpecificProps::Domain(q) => q.domain@,
        TypeSpecificProps::FileHash(q) => q.hash_value@,
        TypeSpecificProps::Process(q) => q.process_name@,
        TypeSpecificProps::Malware(q) => q.family_name@,
        TypeSpecificProps::Ttp(q) => q.mitre_id@,
        TypeSpecificProps::ThreatActor(q) => q.name@,
        TypeSpecificProps::Asset(q) => q.hostname@,
    }
}

/// Every field but the identifying one is empty (MD5 for a hash algorithm).
pub open spec fn props_empty_but_key(p: TypeSpecificProps) -> bool {
    match p {
        TypeSpecificProps::IpAddress(q) => q.version is None && q.geo_location is None
            && q.asn is None && q.isp is None && q.reputation is None,
        TypeSpecificProps::Domain(q) => q.registrar is None && q.creation_date is None,
        TypeSpecificProps::FileHash(q) => q.algorithm == HashAlgorithm::MD5 && q.file_name is None
            && q.file_size is None && q.file_type is None && q.malware_classification is None,
        TypeSpecificProps::Process(q) => q.pid is None && q.command_line is None
            && q.parent_process is None && q.user is None,
        TypeSpecificProps::Malware(q) => q.aliases@.len() == 0 && q.malware_type is None
            && q.first_seen is None,
        TypeSpecificProps::Ttp(q) => q.tactic is None && q.platform@.len() == 0
            && q.data_source@.len() == 0,
        TypeSpecificProps::ThreatActor(q) => q.aliases@.len() == 0 && q.motivation is None
            && q.sophistication is None && q.targets@.len() == 0,
        TypeSpecificProps::Asset(q) => q.os is None && q.ip_addresses@.len() == 0 && q.owner is None
            && q.criticality is None,
    }
}

/// The empty property set of the given node type.
pub fn default_props_for(node_type: &NodeType) -> (r: TypeSpecificProps)
    ensures
        props_kind(r) == *node_type,
        props_empty(r),
{
    match node_type {
        NodeType::IpAddress => TypeSpecificProps::IpAddress(IpAddressProps::default()),
        NodeType::Domain => TypeSpecificProps::Domain(DomainProps::default()),
        NodeType::FileHash => TypeSpecificProps::FileHash(FileHashProps::default()),
        NodeType::Process => TypeSpecificProps::Process(ProcessProps::default()),
        NodeType::Malware => TypeSpecificProps::Malware(MalwareProps::default()),
        NodeType::Ttp => TypeSpecificProps::Ttp(TtpProps::default()),
        NodeType::ThreatActor => TypeSpecificProps::ThreatActor(ThreatActorProps::default()),
        NodeType::Asset => TypeSpecificProps::Asset(AssetProps::default()),
    }
}

/// The property set of the given node type whose identifying field is
/// `label` and whose other fields are empty.
pub fn default_props_for_node_type(node_type: NodeType, label: &str) -> (r: TypeSpecificProps)
    ensures
        props_kind(r) == node_type,
        props_key(r) == label@,
        props_empty_but_key(r),
{
    let props = default_props_for(&node_type);
    let key = crate::text::owned(label);
    match props {
        TypeSpecificProps::IpAddress(mut p) => {
            p.address = key;
            TypeSpecificProps::IpAddress(p)
        },
        TypeSpecificProps::Domain(mut p) => {
            p.domain = key;
            TypeSpecificProps::Domain(p)
        },
        TypeSpecificProps::FileHash(mut p) => {
            p.hash_value = key;
            TypeSpecificProps::FileHash(p)
        },
        TypeSpecificProps::Process(mut p) => {
            p.process_name = key;
            TypeSpecificProps::Process(p)
        },
        TypeSpecificProps::Malware(mut p) => {
            p.family_name = key;
            TypeSpecificProps::Malware(p)
        },
        TypeSpecificProps::Ttp(mut p) => {
            p.mitre_id = key;
            TypeSpecificProps::Ttp(p)
        },
        TypeSpecificProps::ThreatActor(mut p) => {
            p.name = key;
            TypeSpecificProps::ThreatActor(p)
        },
        TypeSpecificProps::Asset(mut p) => {
            p.hostname = key;
            TypeSpecificProps::Asset(p)
        },
    }
}

// ---------------------------------------------------------------------------
// Graph items
// ---------------------------------------------------------------------------

/// A node of an investigation as the exchange formats read and write it:
/// everything but its confidence and its position on the canvas, which are
/// floating-point values that the caller keeps beside it.
#[derive(Clone, Debug)]
pub struct NodeRecord {
    pub id: String,
    pub node_type: NodeType,
    pub label: String,
    pub description: String,
    pub properties: TypeSpecificProps,
    pub investigation_id: String,
    pub created_at: Option<String>,
    pub updated_at: Option<String>,
}

/// A relation of an investigation as the exchange formats read and write
/// it: everything but its confidence, which the caller keeps beside it.
#[derive(Clone, Debug)]
pub struct RelationRecord {
    pub id: String,
    pub relation_type: RelationType,
    pub source_node_id: String,
    pub target_node_id: String,
    pub label: String,
    pub first_seen: Option<String>,
    pub last_seen: Option<String>,
    pub investigation_id: String,
}

} // verus!
