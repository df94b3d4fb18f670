//! Scene data model: blend modes, shader-project passes and their channel
//! inputs, dependency-cycle detection among buffer passes, and the size
//! limits a loaded scene is held to.

use vstd::prelude::*;
use crate::text::{str_eq, push_nat, nat_text};

verus! {

/// The scene schema version this library reads and writes.
pub const SCHEMA_VERSION: u32 = 1;
/// At most this many layers are kept.
pub const MAX_LAYERS: usize = 16;
/// At most this many shader layers are accepted.
pub const MAX_SHADER_LAYERS: usize = 8;
/// The longest shader source (in bytes) accepted, per source and per pass.
pub const MAX_SHADER_SOURCE: usize = 65536;
/// The largest scene text (in bytes) accepted.
pub const MAX_SCENE_BYTES: usize = 1000000;
/// Buffer passes (A to D) of a shader project.
pub const MAX_BUFFER_PASSES: usize = 4;
/// Buffer passes plus the image pass.
pub const MAX_PASSES: usize = 5;
/// Input channels per pass.
pub const MAX_CHANNELS: usize = 4;
/// The total source budget (in bytes) of one shader project.
pub const MAX_PROJECT_SOURCE: usize = 262144;
/// At most this many effects are kept per layer.
pub const MAX_EFFECTS_PER_LAYER: usize = 8;
/// At most this many global effects are kept.
pub const MAX_GLOBAL_EFFECTS: usize = 8;
/// The most effects a scene may have in all.
pub const MAX_TOTAL_EFFECTS: usize = 64;

/// How a layer is composited onto the canvas.
#[derive(Clone, Copy, Debug, PartialEq, Eq, Structural)]
pub enum BlendMode {
    Normal,
    Add,
    Screen,
    Multiply,
    Difference,
    Lighten,
    Darken,
}

impl Default for BlendMode {
    fn default() -> (r: BlendMode)
        ensures
            r == BlendMode::Normal,
    {
        BlendMode::Normal
    }
}

/// The numeric code of a blend mode, in declaration order.
pub open spec fn blend_code(m: BlendMode) -> u32 {
    match m {
        BlendMode::Normal => 0,
        BlendMode::Add => 1,
        BlendMode::Screen => 2,
        BlendMode::Multiply => 3,
        BlendMode::Difference => 4,
        BlendMode::Lighten => 5,
        BlendMode::Darken => 6,
    }
}

impl BlendMode {
    /// The numeric code used by the compositor's shader.
    pub fn as_u32(self) -> (r: u32)
        ensures
            r == blend_code(self),
    {
        match self {
            BlendMode::Normal => 0,
            BlendMode::Add => 1,
            BlendMode::Screen => 2,
            BlendMode::Multiply => 3,
            BlendMode::Difference => 4,
            BlendMode::Lighten => 5,
            BlendMode::Darken => 6,
        }
    }

    /// The blend mode with code `v`; any unknown code means `Normal`.
    pub fn from_u32(v: u32) -> (r: BlendMode)
        ensures
            v <= 6 ==> blend_code(r) == v,
            v > 6 ==> r == BlendMode::Normal,
    {
        match v {
            1 => BlendMode::Add,
            2 => BlendMode::Screen,
            3 => BlendMode::Multiply,
            4 => BlendMode::Difference,
            5 => BlendMode::Lighten,
            6 => BlendMode::Darken,
            _ => BlendMode::Normal,
        }
    }
}

/// Decoding the code of a blend mode gives the mode back.
pub proof fn law_blend_code_round_trip(m: BlendMode)
    ensures
        blend_code(m) <= 6,
        forall|r: BlendMode| blend_code(r) == blend_code(m) ==> r == m,
{
}

/// Attribution and licensing metadata of a shader.
#[derive(Debug)]
pub struct Attribution {
    pub title: String,
    pub author: String,
    pub source_url: String,
    pub license: String,
    pub license_url: String,
    pub modified_from: String,
    pub attribution_text: String,
}

impl Default for Attribution {
    fn default() -> (r: Attribution)
        ensures
            r.title@.len() == 0,
            r.author@.len() == 0,
            r.source_url@.len() == 0,
            r.license@.len() == 0,
            r.license_url@.len() == 0,
            r.modified_from@.len() == 0,
            r.attribution_text@.len() == 0,
    {
        Attribution {
            title: String::new(),
            author: String::new(),
            source_url: String::new(),
            license: String::new(),
            license_url: String::new(),
            modified_from: String::new(),
            attribution_text: String::new(),
        }
    }
}

/// The input feeding an `iChannelN` of a shader pass.
#[derive(Clone, Copy, Debug, PartialEq, Eq, Structural)]
pub enum ChannelSource {
    /// Nothing feeds the channel.
    NoSource,
    Audio,
    /// Buffer A to D by index 0 to 3.
    Buffer(u8),
    /// The pass's own output of the previous frame.
    SelfPrev,
}

/// The serialized name of a channel source.
pub open spec fn channel_name(c: ChannelSource) -> Seq<char> {
    match c {
        ChannelSource::NoSource => "none"@,
        ChannelSource::Audio => "audio"@,
        ChannelSource::Buffer(n) => if n == 0 {
            "buffera"@
        } else if n == 1 {
            "bufferb"@
        } else if n == 2 {
            "bufferc"@
        } else {
            "bufferd"@
        },
        ChannelSource::SelfPrev => "self"@,
    }
}

/// The channel source a serialized name denotes; unknown names mean `None`.
pub open spec fn channel_of_name(s: Seq<char>) -> ChannelSource {
    if s == "audio"@ {
        ChannelSource::Audio
    } else if s == "buffera"@ {
        ChannelSource::Buffer(0)
    } else if s == "bufferb"@ {
        ChannelSource::Buffer(1)
    } else if s == "bufferc"@ {
        ChannelSource::Buffer(2)
    } else if s == "bufferd"@ {
        ChannelSource::Buffer(3)
    } else if s == "self"@ {
        ChannelSource::SelfPrev
    } else {
        ChannelSource::NoSource
    }
}

impl ChannelSource {
    pub fn as_str(self) -> (r: &'static str)
        ensures
            r@ == channel_name(self),
    {
        match self {
            ChannelSource::NoSource => "none",
            ChannelSource::Audio => "audio",
            ChannelSource::Buffer(0) => "buffera",
            ChannelSource::Buffer(1) => "bufferb",
            ChannelSource::Buffer(2) => "bufferc",
            ChannelSource::Buffer(_) => "bufferd",
            ChannelSource::SelfPrev => "self",
        }
    }

    pub fn parse(s: &str) -> (r: ChannelSource)
        ensures
            r == channel_of_name(s@),
    {
        if str_eq(s, "audio") {
            ChannelSource::Audio
        } else if str_eq(s, "buffera") {
            ChannelSource::Buffer(0)
        } else if str_eq(s, "bufferb") {
            ChannelSource::Buffer(1)
        } else if str_eq(s, "bufferc") {
            ChannelSource::Buffer(2)
        } else if str_eq(s, "bufferd") {
            ChannelSource::Buffer(3)
        } else if str_eq(s, "self") {
            ChannelSource::SelfPrev
        } else {
            ChannelSource::NoSource
        }
    }
}

/// A channel source in canonical form (buffer indices 0 to 3).
pub open spec fn channel_canonical(c: ChannelSource) -> bool {
    match c {
        ChannelSource::Buffer(n) => n <= 3,
        _ => true,
    }
}

proof fn reveal_channel_names()
    ensures
        "none"@ != "audio"@,
        "none"@ != "buffera"@,
        "none"@ != "bufferb"@,
        "none"@ != "bufferc"@,
        "none"@ != "bufferd"@,
        "none"@ != "self"@,
        "audio"@ != "buffera"@,
        "audio"@ != "bufferb"@,
        "audio"@ != "bufferc"@,
        "audio"@ != "bufferd"@,
        "audio"@ != "self"@,
        "buffera"@ != "bufferb"@,
        "buffera"@ != "bufferc"@,
        "buffera"@ != "bufferd"@,
        "buffera"@ != "self"@,
        "bufferb"@ != "bufferc"@,
        "bufferb"@ != "bufferd"@,
        "bufferb"@ != "self"@,
        "bufferc"@ != "bufferd"@,
        "bufferc"@ != "self"@,
        "bufferd"@ != "self"@,
        "buffera"@ != "image"@,
        "bufferb"@ != "image"@,
        "bufferc"@ != "image"@,
        "bufferd"@ != "image"@,
{
    reveal_strlit("none");
    reveal_strlit("audio");
    reveal_strlit("buffera");
    reveal_strlit("bufferb");
    reveal_strlit("bufferc");
    reveal_strlit("bufferd");
    reveal_strlit("self");
    reveal_strlit("image");
    assert("none"@.len() != "audio"@.len());
    assert("none"@.len() != "buffera"@.len());
    assert("none"@[0] != "self"@[0]);
    assert("audio"@.len() != "buffera"@.len());
    assert("audio"@[0] != "self"@[0]);
    assert("buffera"@[6] != "bufferb"@[6]);
    assert("buffera"@[6] != "bufferc"@[6]);
    assert("buffera"@[6] != "bufferd"@[6]);
    assert("bufferb"@[6] != "bufferc"@[6]);
    assert("bufferb"@[6] != "bufferd"@[6]);
    assert("bufferc"@[6] != "bufferd"@[6]);
    assert("buffera"@.len() != "self"@.len());
    assert("bufferb"@.len() != "self"@.len());
    assert("bufferc"@.len() != "self"@.len());
    assert("bufferd"@.len() != "self"@.len());
    assert("buffera"@.len() != "image"@.len());
    assert("bufferb"@.len() != "image"@.len());
    assert("bufferc"@.len() != "image"@.len());
    assert("bufferd"@.len() != "image"@.len());
}

/// Parsing the name of a canonical channel source gives it back, and every
/// name produced parses to a source with that same name.
pub proof fn law_channel_round_trip(c: ChannelSource)
    ensures
        channel_canonical(c) ==> channel_of_name(channel_name(c)) == c,
        channel_name(channel_of_name(channel_name(c))) == channel_name(c),
{
    reveal_channel_names();
}

/// Buffer `n` (for `n` from 0 to 3) is named `buffer` followed by the `n`-th
/// letter from `a`, and that name denotes buffer `n`: `buffera` is buffer 0,
/// `bufferb` buffer 1, and so on.
pub proof fn law_buffer_names(n: u8)
    requires
        n <= 3,
    ensures
        channel_name(ChannelSource::Buffer(n)) == "buffer"@.push("abcd"@[n as int]),
        channel_of_name("buffer"@.push("abcd"@[n as int])) == ChannelSource::Buffer(n),
{
    reveal_channel_names();
    reveal_strlit("buffer");
    reveal_strlit("abcd");
    reveal_strlit("buffera");
    reveal_strlit("bufferb");
    reveal_strlit("bufferc");
    reveal_strlit("bufferd");
    assert("buffera"@ =~= "buffer"@.push('a'));
    assert("bufferb"@ =~= "buffer"@.push('b'));
    assert("bufferc"@ =~= "buffer"@.push('c'));
    assert("bufferd"@ =~= "buffer"@.push('d'));
}

/// The execution index of a pass type name: buffers A to D are 0 to 3, the
/// image pass is 4.
pub open spec fn pass_index_of(s: Seq<char>) -> Option<usize> {
    if s == "buffera"@ {
        Some(0)
    } else if s == "bufferb"@ {
        Some(1)
    } else if s == "bufferc"@ {
        Some(2)
    } else if s == "bufferd"@ {
        Some(3)
    } else if s == "image"@ {
        Some(4)
    } else {
        None
    }
}

/// The pass type name of an execution index; 4 and above name the image pass.
pub open spec fn pass_name_of(i: usize) -> Seq<char> {
    if i == 0 {
        "buffera"@
    } else if i == 1 {
        "bufferb"@
    } else if i == 2 {
        "bufferc"@
    } else if i == 3 {
        "bufferd"@
    } else {
        "image"@
    }
}

pub fn pass_type_index(s: &str) -> (r: Option<usize>)
    ensures
        r == pass_index_of(s@),
{
    if str_eq(s, "buffera") {
        Some(0)
    } else if str_eq(s, "bufferb") {
        Some(1)
    } else if str_eq(s, "bufferc") {
        Some(2)
    } else if str_eq(s, "bufferd") {
        Some(3)
    } else if str_eq(s, "image") {
        Some(4)
    } else {
        None
    }
}

pub fn pass_type_str(index: usize) -> (r: &'static str)
    ensures
        r@ == pass_name_of(index),
{
    match index {
        0 => "buffera",
        1 => "bufferb",
        2 => "bufferc",
        3 => "bufferd",
        _ => "image",
    }
}

/// Index and name of a pass type convert into each other.
pub proof fn law_pass_type_round_trip(i: usize, s: Seq<char>)
    ensures
        i <= 4 ==> pass_index_of(pass_name_of(i)) == Some(i),
        pass_index_of(s) matches Some(k) ==> pass_name_of(k) == s,
{
    reveal_channel_names();
}

/// One pass of a multipass shader project.
#[derive(Debug)]
pub struct PassData {
    pub pass_type: String,
    pub enabled: bool,
    pub source: String,
    pub mode: u8,
    pub channels: [String; 4],
}

/// The plain contents of a pass.
#[verifier::ext_equal]
pub struct PassView {
    pub pass_type: Seq<char>,
    pub enabled: bool,
    pub source: Seq<char>,
    pub mode: u8,
    pub channels: Seq<Seq<char>>,
}

impl View for PassData {
    type V = PassView;

    open spec fn view(&self) -> PassView {
        PassView {
            pass_type: self.pass_type@,
            enabled: self.enabled,
            source: self.source@,
            mode: self.mode,
            channels: self.channels@.map_values(|c: String| c@),
        }
    }
}

impl Clone for PassData {
    fn clone(&self) -> (r: PassData)
        ensures
            r@ == self@,
    {
        let channels = [
            self.channels[0].clone(),
            self.channels[1].clone(),
            self.channels[2].clone(),
            self.channels[3].clone(),
        ];
        let r = PassData {
            pass_type: self.pass_type.clone(),
            enabled: self.enabled,
            source: self.source.clone(),
            mode: self.mode,
            channels,
        };
        assert(r.channels@.map_values(|c: String| c@) =~= self.channels@.map_values(|c: String| c@));
        r
    }
}

impl PassData {
    /// The execution index of this pass, if its type name is known.
    pub fn index(&self) -> (r: Option<usize>)
        ensures
            r == pass_index_of(self.pass_type@),
    {
        pass_type_index(self.pass_type.as_str())
    }
}

/// The default of a `visible` / `enabled` flag: on.
pub fn default_true() -> (r: bool)
    ensures
        r,
{
    true
}

/// Four channels, all fed by nothing.
pub fn default_channels() -> (r: [String; 4])
    ensures
        forall|i: int| 0 <= i < 4 ==> (#[trigger] r@[i])@ == "none"@,
{
    ["none".to_owned(), "none".to_owned(), "none".to_owned(), "none".to_owned()]
}

/// The effective pass list of a shader layer: the explicit `passes` when there
/// are any, otherwise one enabled image pass built from the legacy `source`
/// and `mode`, with channel 0 fed by audio and the others by nothing.
pub fn shader_project_passes(source: &str, mode: u8, passes: &[PassData]) -> (r: Vec<PassData>)
    ensures
        passes@.len() > 0 ==> r@.len() == passes@.len() && forall|i: int|
            0 <= i < passes@.len() ==> (#[trigger] r@[i])@ == passes@[i]@,
        passes@.len() == 0 ==> r@.len() == 1 && r@[0]@ == (PassView {
            pass_type: "image"@,
            enabled: true,
            source: source@,
            mode,
            channels: seq!["audio"@, "none"@, "none"@, "none"@],
        }),
{
    if passes.len() > 0 {
        let mut r: Vec<PassData> = Vec::new();
        for i in 0..passes.len()
            invariant
                r@.len() == i,
                forall|j: int| 0 <= j < i ==> (#[trigger] r@[j])@ == passes@[j]@,
        {
            r.push(passes[i].clone());
        }
        return r;
    }
    let mut channels = default_channels();
    channels[0] = "audio".to_owned();
    let p = PassData {
        pass_type: "image".to_owned(),
        enabled: true,
        source: source.to_owned(),
        mode,
        channels,
    };
    assert(p@.channels =~= seq!["audio"@, "none"@, "none"@, "none"@]);
    let mut r: Vec<PassData> = Vec::new();
    r.push(p);
    r
}

// ------------------------------------------------------------------ cycles --

/// A dependency edge from buffer `u` to buffer `w`: one of `u`'s channels reads
/// `w`, which is in range and is not `u` itself (a self-loop is feedback).
pub open spec fn dep_edge(deps: Seq<[Option<u8>; 4]>, u: int, w: int) -> bool {
    &&& 0 <= u < deps.len()
    &&& 0 <= w < deps.len()
    &&& w != u
    &&& exists|k: int| 0 <= k < 4 && (#[trigger] deps[u]@[k]) is Some && deps[u]@[k]->0 as int == w
}

/// `p` is a closed walk of at least one edge in the dependency graph.
pub open spec fn is_dep_cycle(deps: Seq<[Option<u8>; 4]>, p: Seq<int>) -> bool {
    &&& p.len() >= 2
    &&& p[0] == p[p.len() - 1]
    &&& forall|i: int| 0 <= i < p.len() - 1 ==> dep_edge(deps, #[trigger] p[i], p[i + 1])
}

/// The dependency graph among buffers has a cycle.
pub open spec fn has_dep_cycle(deps: Seq<[Option<u8>; 4]>) -> bool {
    exists|p: Seq<int>| is_dep_cycle(deps, p)
}

/// Number of unvisited (state 0) vertices.
spec fn count_white(st: Seq<u8>) -> nat
    decreases st.len(),
{
    if st.len() == 0 {
        0
    } else {
        count_white(st.drop_last()) + if st.last() == 0 { 1nat } else { 0nat }
    }
}

proof fn lemma_count_white_mono(a: Seq<u8>, b: Seq<u8>)
    requires
        a.len() == b.len(),
        forall|i: int| 0 <= i < a.len() && b[i] == 0 ==> a[i] == 0,
    ensures
        count_white(b) <= count_white(a),
    decreases a.len(),
{
    if a.len() > 0 {
        lemma_count_white_mono(a.drop_last(), b.drop_last());
    }
}

proof fn lemma_count_white_drop(a: Seq<u8>, v: int)
    requires
        0 <= v < a.len(),
        a[v] == 0,
    ensures
        count_white(a.update(v, 1)) < count_white(a),
    decreases a.len(),
{
    let b = a.update(v, 1);
    if v < a.len() - 1 {
        lemma_count_white_drop(a.drop_last(), v);
        assert(b.drop_last() =~= a.drop_last().update(v, 1));
    } else {
        assert(b.drop_last() =~= a.drop_last());
    }
}

/// Invariant of the depth-first search: states are 0 (unvisited), 1 (on the
/// current path) or 2 (finished); the vertices in state 1 are exactly those of
/// `stk`, a path of edges; every edge leaving a finished vertex enters a
/// finished vertex of smaller rank; ranks of finished vertices are below `next`.
spec fn dfs_inv(deps: Seq<[Option<u8>; 4]>, st: Seq<u8>, stk: Seq<int>, rank: Seq<int>, next: int) -> bool {
    &&& st.len() == deps.len()
    &&& rank.len() == deps.len()
    &&& forall|u: int| 0 <= u < st.len() ==> #[trigger] st[u] <= 2
    &&& forall|u: int| 0 <= u < st.len() ==> (#[trigger] st[u] == 1 <==> stk.contains(u))
    &&& forall|i: int| 0 <= i < stk.len() ==> 0 <= #[trigger] stk[i] < deps.len()
    &&& forall|i: int| 0 <= i < stk.len() - 1 ==> dep_edge(deps, #[trigger] stk[i], stk[i + 1])
    &&& forall|u: int| 0 <= u < st.len() && #[trigger] st[u] == 2 ==> rank[u] < next
    &&& forall|u: int, w: int| #![trigger dep_edge(deps, u, w), st[u]]
        0 <= u < st.len() && st[u] == 2 && dep_edge(deps, u, w) ==> st[w] == 2 && rank[w] < rank[u]
}

/// Finished vertices stay finished with the same rank; path vertices keep
/// their state; no vertex becomes unvisited.
spec fn dfs_grows(st0: Seq<u8>, st1: Seq<u8>, rank0: Seq<int>, rank1: Seq<int>) -> bool {
    &&& st1.len() == st0.len()
    &&& forall|u: int| 0 <= u < st0.len() && #[trigger] st0[u] == 2 ==> st1[u] == 2 && rank1[u] == rank0[u]
    &&& forall|u: int| 0 <= u < st0.len() ==> (#[trigger] st1[u] == 1 <==> st0[u] == 1)
    &&& forall|u: int| 0 <= u < st0.len() && #[trigger] st1[u] == 0 ==> st0[u] == 0
}

proof fn lemma_cycle_from_back_edge(deps: Seq<[Option<u8>; 4]>, stk: Seq<int>, v: int, b: int)
    requires
        stk.len() >= 1,
        stk.last() == v,
        stk.contains(b),
        b != v,
        forall|i: int| 0 <= i < stk.len() - 1 ==> dep_edge(deps, #[trigger] stk[i], stk[i + 1]),
        dep_edge(deps, v, b),
    ensures
        has_dep_cycle(deps),
{
    let j = choose|j: int| 0 <= j < stk.len() && stk[j] == b;
    let p = stk.subrange(j, stk.len() as int).push(b);
    assert(p[p.len() - 2] == v);
    assert forall|i: int| 0 <= i < p.len() - 1 implies dep_edge(deps, #[trigger] p[i], p[i + 1]) by {
        if i < p.len() - 2 {
            assert(p[i] == stk[j + i]);
            assert(p[i + 1] == stk[j + i + 1]);
        }
    }
    assert(is_dep_cycle(deps, p));
}

proof fn lemma_ranked_walk(deps: Seq<[Option<u8>; 4]>, p: Seq<int>, rank: Seq<int>)
    requires
        p.len() >= 2,
        forall|i: int| 0 <= i < p.len() - 1 ==> dep_edge(deps, #[trigger] p[i], p[i + 1]),
        forall|u: int, w: int| dep_edge(deps, u, w) ==> #[trigger] rank[w] < #[trigger] rank[u],
    ensures
        rank[p.last()] < rank[p[0]],
    decreases p.len(),
{
    assert(dep_edge(deps, p[0], p[1]));
    if p.len() > 2 {
        let q = p.drop_first();
        assert forall|i: int| 0 <= i < q.len() - 1 implies dep_edge(deps, #[trigger] q[i], q[i + 1]) by {
            assert(q[i] == p[i + 1]);
        }
        lemma_ranked_walk(deps, q, rank);
    }
}

proof fn lemma_grows_trans(a: Seq<u8>, b: Seq<u8>, c: Seq<u8>, ra: Seq<int>, rb: Seq<int>, rc: Seq<int>)
    requires
        dfs_grows(a, b, ra, rb),
        dfs_grows(b, c, rb, rc),
    ensures
        dfs_grows(a, c, ra, rc),
{
    assert forall|u: int| 0 <= u < a.len() && #[trigger] a[u] == 2 implies c[u] == 2 && rc[u] == ra[u] by {
        assert(b[u] == 2);
    }
    assert forall|u: int| 0 <= u < a.len() && #[trigger] c[u] == 0 implies a[u] == 0 by {
        assert(b[u] == 0);
    }
}

proof fn lemma_seen_kept(
    row: [Option<u8>; 4],
    deps: Seq<[Option<u8>; 4]>,
    v: int,
    k: int,
    b: Seq<u8>,
    c: Seq<u8>,
    rb: Seq<int>,
    rc: Seq<int>,
    nb: int,
    nc: int,
)
    requires
        dfs_grows(b, c, rb, rc),
        nc >= nb,
        b.len() == deps.len(),
        forall|kk: int, w: int| #![trigger row@[kk], dep_edge(deps, v, w)] 0 <= kk < k && row@[kk] is Some && row@[kk]->0 as int == w && dep_edge(deps, v, w)
            ==> b[w] == 2 && rb[w] < nb,
    ensures
        forall|kk: int, w: int| #![trigger row@[kk], dep_edge(deps, v, w)] 0 <= kk < k && row@[kk] is Some && row@[kk]->0 as int == w && dep_edge(deps, v, w)
            ==> c[w] == 2 && rc[w] < nc,
{
    assert forall|kk: int, w: int| #![trigger row@[kk], dep_edge(deps, v, w)] 0 <= kk < k && row@[kk] is Some && row@[kk]->0 as int == w && dep_edge(deps, v, w)
        implies c[w] == 2 && rc[w] < nc by {
        assert(b[w] == 2);
    }
}

#[verifier::rlimit(40)]
fn dfs(
    v: usize,
    deps: &[[Option<u8>; 4]],
    st: &mut Vec<u8>,
    Ghost(stk): Ghost<Seq<int>>,
    Ghost(rank): Ghost<Seq<int>>,
    Ghost(next): Ghost<int>,
) -> (r: (bool, Ghost<Seq<int>>, Ghost<int>))
    requires
        v < deps@.len(),
        old(st)@[v as int] == 0,
        dfs_inv(deps@, old(st)@, stk, rank, next),
        stk.len() > 0 ==> dep_edge(deps@, stk.last(), v as int),
    ensures
        r.0 ==> has_dep_cycle(deps@),
        !r.0 ==> {
            &&& dfs_inv(deps@, final(st)@, stk, r.1@, r.2@)
            &&& dfs_grows(old(st)@, final(st)@, rank, r.1@)
            &&& final(st)@[v as int] == 2
            &&& r.2@ >= next
        },
    decreases count_white(old(st)@),
{
    let ghost st0 = st@;
    proof {
        lemma_count_white_drop(st@, v as int);
    }
    st.set(v, 1);
    let ghost stk1 = stk.push(v as int);
    let ghost mut rank1 = rank;
    let ghost mut next1 = next;
    assert forall|u: int| 0 <= u < st@.len() implies (#[trigger] st@[u] == 1 <==> stk1.contains(u)) by {
        if u == v as int {
            assert(stk1[stk1.len() - 1] == u);
        } else if stk.contains(u) {
            let k = choose|k: int| 0 <= k < stk.len() && stk[k] == u;
            assert(stk1[k] == u);
        } else if stk1.contains(u) {
            let k = choose|k: int| 0 <= k < stk1.len() && stk1[k] == u;
            assert(stk[k] == u);
        }
    }
    assert forall|i: int| 0 <= i < stk1.len() - 1 implies dep_edge(deps@, #[trigger] stk1[i], stk1[i + 1]) by {
        if i < stk.len() - 1 {
            assert(stk1[i] == stk[i] && stk1[i + 1] == stk[i + 1]);
        }
    }
    let row = deps[v];
    for k in 0..4
        invariant
            v < deps@.len(),
            row == deps@[v as int],
            st@.len() == deps@.len(),
            st@[v as int] == 1,
            dfs_inv(deps@, st@, stk1, rank1, next1),
            dfs_grows(st0.update(v as int, 1), st@, rank, rank1),
            next1 >= next,
            count_white(st@) < count_white(st0),
            stk1 == stk.push(v as int),
            st0 == old(st)@,
            forall|kk: int, w: int| #![trigger row@[kk], dep_edge(deps@, v as int, w)] 0 <= kk < k && row@[kk] is Some && row@[kk]->0 as int == w && dep_edge(deps@, v as int, w)
                ==> st@[w] == 2 && rank1[w] < next1,
    {
        if let Some(b8) = row[k] {
            let b = b8 as usize;
            if b != v && b < deps.len() {
                assert(dep_edge(deps@, v as int, b as int)) by {
                    assert(deps@[v as int]@[k as int] is Some && deps@[v as int]@[k as int]->0 as int == b as int);
                }
                if st[b] == 1 {
                    proof {
                        lemma_cycle_from_back_edge(deps@, stk1, v as int, b as int);
                    }
                    return (true, Ghost(rank1), Ghost(next1));
                }
                if st[b] == 0 {
                    let ghost stb = st@;
                    let (found, Ghost(rank2), Ghost(next2)) = dfs(b, deps, st, Ghost(stk1), Ghost(rank1), Ghost(next1));
                    if found {
                        return (true, Ghost(rank2), Ghost(next2));
                    }
                    proof {
                        lemma_count_white_mono(stb, st@);
                        lemma_grows_trans(st0.update(v as int, 1), stb, st@, rank, rank1, rank2);
                        lemma_seen_kept(row, deps@, v as int, k as int, stb, st@, rank1, rank2, next1, next2);
                        rank1 = rank2;
                        next1 = next2;
                    }
                }
            }
        }
        assert forall|kk: int, w: int| #![trigger row@[kk], dep_edge(deps@, v as int, w)] 0 <= kk < k + 1 && row@[kk] is Some && row@[kk]->0 as int == w && dep_edge(deps@, v as int, w)
            implies st@[w] == 2 && rank1[w] < next1 by {
        }
    }
    let ghost rank_f = rank1.update(v as int, next1);
    let ghost next_f = next1 + 1;
    st.set(v, 2);
    proof {
        assert forall|u: int, w: int| #![trigger dep_edge(deps@, u, w), st@[u]]
            0 <= u < st@.len() && st@[u] == 2 && dep_edge(deps@, u, w) implies st@[w] == 2 && rank_f[w] < rank_f[u] by {
            if u == v as int {
                let kk = choose|kk: int| 0 <= kk < 4 && (#[trigger] deps@[u]@[kk]) is Some && deps@[u]@[kk]->0 as int == w;
                assert(row@[kk] is Some && row@[kk]->0 as int == w);
            }
        }
        assert forall|u: int| 0 <= u < st@.len() implies (#[trigger] st@[u] == 1 <==> stk.contains(u)) by {
            if stk.contains(u) {
                let k = choose|k: int| 0 <= k < stk.len() && stk[k] == u;
                assert(stk1[k] == u);
                assert(u != v as int);
            }
            if st@[u] == 1 {
                assert(stk1.contains(u));
                let k = choose|k: int| 0 <= k < stk1.len() && stk1[k] == u;
                if k < stk.len() {
                    assert(stk[k] == u);
                }
            }
        }
    }
    (false, Ghost(rank_f), Ghost(next_f))
}

/// Whether the buffer passes depend on each other in a cycle. `deps[i][c]` is
/// the buffer read by channel `c` of buffer `i`; a buffer reading itself is
/// feedback, not a cycle, and out-of-range indices are ignored.
pub fn buffer_graph_has_cycle(deps: &[[Option<u8>; 4]]) -> (r: bool)
    ensures
        r == has_dep_cycle(deps@),
{
    let n = deps.len();
    let mut st: Vec<u8> = Vec::new();
    for i in 0..n
        invariant
            st@.len() == i,
            forall|u: int| 0 <= u < i ==> st@[u] == 0,
    {
        st.push(0);
    }
    let ghost mut rank: Seq<int> = Seq::new(n as nat, |i: int| 0);
    let ghost mut next: int = 0;
    assert(dfs_inv(deps@, st@, Seq::empty(), rank, next));
    for v in 0..n
        invariant
            n == deps@.len(),
            dfs_inv(deps@, st@, Seq::empty(), rank, next),
            forall|u: int| 0 <= u < v ==> st@[u] == 2,
    {
        if st[v] == 0 {
            let (found, Ghost(rank2), Ghost(next2)) = dfs(v, deps, &mut st, Ghost(Seq::empty()), Ghost(rank), Ghost(next));
            if found {
                return true;
            }
            proof {
                rank = rank2;
                next = next2;
            }
        } else {
            assert(st@[v as int] == 2) by {
                assert(!Seq::<int>::empty().contains(v as int));
            }
        }
    }
    proof {
        if has_dep_cycle(deps@) {
            let p = choose|p: Seq<int>| is_dep_cycle(deps@, p);
            assert forall|u: int, w: int| dep_edge(deps@, u, w) implies #[trigger] rank[w] < #[trigger] rank[u] by {
                assert(st@[u] == 2);
            }
            lemma_ranked_walk(deps@, p, rank);
        }
    }
    false
}


// ------------------------------------------------------------------ limits --

/// The sizes of a shader layer's sources, in bytes.
pub struct ShaderSizes {
    pub source: usize,
    pub passes: Vec<usize>,
}

/// The sizes of a layer that the scene limits bound: its number of effects
/// and, for a shader layer, its source sizes.
pub struct LayerSizes {
    pub effects: usize,
    pub shader: Option<ShaderSizes>,
}

/// What a scene keeps once its limits are applied: the number of layers,
/// and for each kept layer its number of effects and of passes, and the
/// number of global effects.
pub struct KeptSizes {
    pub layers: usize,
    pub effects: Vec<usize>,
    pub passes: Vec<usize>,
    pub global_effects: usize,
}

pub open spec fn min_of(a: int, b: int) -> int {
    if a < b { a } else { b }
}

pub open spec fn sum_of(s: Seq<usize>) -> int
    decreases s.len(),
{
    if s.len() == 0 { 0 } else { sum_of(s.drop_last()) + s.last() }
}

/// The passes of a shader layer that are kept.
pub open spec fn kept_passes(sh: ShaderSizes) -> Seq<usize> {
    sh.passes@.take(min_of(sh.passes@.len() as int, MAX_PASSES as int))
}

/// The error a layer's sizes give, if any.
pub open spec fn layer_error(l: LayerSizes) -> Option<Seq<char>> {
    match l.shader {
        None => None,
        Some(sh) => if sh.source > MAX_SHADER_SOURCE {
            Some("shader source exceeds 65536 bytes"@)
        } else if exists|i: int| 0 <= i < kept_passes(sh).len() && #[trigger] kept_passes(sh)[i] > MAX_SHADER_SOURCE {
            Some("shader pass source exceeds 65536 bytes"@)
        } else if sh.source + sum_of(kept_passes(sh)) > MAX_PROJECT_SOURCE {
            Some("shader project source exceeds 262144 bytes"@)
        } else {
            None
        },
    }
}

/// The error of the first layer that has one.
pub open spec fn first_layer_error(ls: Seq<LayerSizes>) -> Option<Seq<char>>
    decreases ls.len(),
{
    if ls.len() == 0 {
        None
    } else {
        match first_layer_error(ls.drop_last()) {
            Some(m) => Some(m),
            None => layer_error(ls.last()),
        }
    }
}

pub open spec fn shader_layer_count(ls: Seq<LayerSizes>) -> int
    decreases ls.len(),
{
    if ls.len() == 0 {
        0
    } else {
        shader_layer_count(ls.drop_last()) + if ls.last().shader is Some { 1int } else { 0int }
    }
}

/// The number of effects the layers keep.
pub open spec fn kept_effect_count(ls: Seq<LayerSizes>) -> int
    decreases ls.len(),
{
    if ls.len() == 0 {
        0
    } else {
        kept_effect_count(ls.drop_last()) + min_of(ls.last().effects as int, MAX_EFFECTS_PER_LAYER as int)
    }
}

/// The layers that are kept.
pub open spec fn kept_layers(ls: Seq<LayerSizes>) -> Seq<LayerSizes> {
    ls.take(min_of(ls.len() as int, MAX_LAYERS as int))
}

/// The outcome of holding a scene to its limits: the error, if there is
/// one, else nothing (what is kept is given by `kept_layers` and the caps).
/// A wrong schema version comes first; then the first kept layer with an
/// oversize shader source; then too many shader layers; then too many
/// effects in all.
pub open spec fn scene_limits_error(version: u32, ls: Seq<LayerSizes>, global_effects: usize) -> Option<Seq<char>> {
    let kept = kept_layers(ls);
    let total = kept_effect_count(kept) + min_of(global_effects as int, MAX_GLOBAL_EFFECTS as int);
    if version != SCHEMA_VERSION {
        Some("unsupported scene schema version "@ + nat_text(version as nat) + " (expected 1)"@)
    } else if first_layer_error(kept) is Some {
        first_layer_error(kept)
    } else if shader_layer_count(kept) > MAX_SHADER_LAYERS {
        Some("too many shader layers ("@ + nat_text(shader_layer_count(kept) as nat) + " > 8)"@)
    } else if total > MAX_TOTAL_EFFECTS {
        Some("too many effects ("@ + nat_text(total as nat) + " > 64)"@)
    } else {
        None
    }
}

proof fn lemma_sum_of_take(s: Seq<usize>, i: int)
    requires
        0 <= i < s.len(),
    ensures
        sum_of(s.take(i + 1)) == sum_of(s.take(i)) + s[i],
{
    assert(s.take(i + 1).drop_last() =~= s.take(i));
}

proof fn lemma_drop_last_take<A>(s: Seq<A>, i: int)
    requires
        0 <= i < s.len(),
    ensures
        s.take(i + 1).drop_last() == s.take(i),
        s.take(i + 1).last() == s[i],
{
    assert(s.take(i + 1).drop_last() =~= s.take(i));
}

proof fn lemma_first_error_prefix(s: Seq<LayerSizes>, j: int)
    requires
        0 <= j <= s.len(),
        first_layer_error(s.take(j)) is Some,
    ensures
        first_layer_error(s) == first_layer_error(s.take(j)),
    decreases s.len(),
{
    if j == s.len() {
        assert(s.take(j) =~= s);
    } else {
        assert(s.drop_last().take(j) =~= s.take(j));
        lemma_first_error_prefix(s.drop_last(), j);
    }
}

/// The error a layer's sizes give, if any.
fn check_layer(l: &LayerSizes) -> (r: Option<String>)
    ensures
        r matches Some(m) ==> layer_error(*l) == Some(m@),
        r is None ==> layer_error(*l) is None,
{
    match &l.shader {
        None => None,
        Some(sh) => {
            if sh.source > MAX_SHADER_SOURCE {
                return Some("shader source exceeds 65536 bytes".to_owned());
            }
            let n = if sh.passes.len() < MAX_PASSES { sh.passes.len() } else { MAX_PASSES };
            let mut total: usize = sh.source;
            let mut i: usize = 0;
            while i < n
                invariant
                    l.shader == Some(*sh),
                    sh.source <= MAX_SHADER_SOURCE,
                    n == min_of(sh.passes@.len() as int, MAX_PASSES as int),
                    i <= n,
                    forall|k: int| 0 <= k < i ==> sh.passes@[k] <= MAX_SHADER_SOURCE,
                    total == sh.source + sum_of(sh.passes@.take(i as int)),
                    total <= MAX_SHADER_SOURCE * (i + 1),
                decreases n - i,
            {
                if sh.passes[i] > MAX_SHADER_SOURCE {
                    proof {
                        assert(kept_passes(*sh).len() == n);
                        assert(kept_passes(*sh)[i as int] == sh.passes@[i as int]);
                        assert(kept_passes(*sh)[i as int] > MAX_SHADER_SOURCE);
                        assert(l.shader == Some(*sh));
                    }
                    return Some("shader pass source exceeds 65536 bytes".to_owned());
                }
                proof {
                    lemma_sum_of_take(sh.passes@, i as int);
                }
                total = total + sh.passes[i];
                i = i + 1;
            }
            proof {
                assert(kept_passes(*sh) =~= sh.passes@.take(n as int));
                assert forall|k: int| 0 <= k < kept_passes(*sh).len() implies !(#[trigger] kept_passes(*sh)[k]
                    > MAX_SHADER_SOURCE) by {
                    assert(kept_passes(*sh)[k] == sh.passes@[k]);
                }
            }
            if total > MAX_PROJECT_SOURCE {
                return Some("shader project source exceeds 262144 bytes".to_owned());
            }
            None
        },
    }
}

/// Holds a scene's sizes to the limits: too many layers, effects (per layer
/// or global) or passes are cut to the limit, and what cannot be cut is an
/// error (see `scene_limits_error`). On success, says what is kept.
pub fn check_scene_limits(version: u32, layers: &[LayerSizes], global_effects: usize) -> (r: Result<KeptSizes, String>)
    ensures
        scene_limits_error(version, layers@, global_effects) matches Some(m) ==> (r matches Err(e) && e@ == m),
        scene_limits_error(version, layers@, global_effects) is None ==> (r matches Ok(k) && {
            let kept = kept_layers(layers@);
            &&& k.layers == kept.len()
            &&& k.effects@.len() == kept.len()
            &&& k.passes@.len() == kept.len()
            &&& forall|i: int|
                0 <= i < kept.len() ==> #[trigger] k.effects@[i] == min_of(
                    kept[i].effects as int,
                    MAX_EFFECTS_PER_LAYER as int,
                )
            &&& forall|i: int|
                0 <= i < kept.len() ==> #[trigger] k.passes@[i] == match kept[i].shader {
                    Some(sh) => kept_passes(sh).len() as int,
                    None => 0int,
                }
            &&& k.global_effects == min_of(global_effects as int, MAX_GLOBAL_EFFECTS as int)
        }),
{
    if version != SCHEMA_VERSION {
        let mut m = "unsupported scene schema version ".to_owned();
        push_nat(&mut m, version as u64);
        crate::text::push_str(&mut m, " (expected 1)");
        return Err(m);
    }
    let n = if layers.len() < MAX_LAYERS { layers.len() } else { MAX_LAYERS };
    let ghost kept = kept_layers(layers@);
    let mut shaders: usize = 0;
    let mut total: usize = 0;
    let mut effects: Vec<usize> = Vec::new();
    let mut passes: Vec<usize> = Vec::new();
    let mut i: usize = 0;
    while i < n
        invariant
            version == SCHEMA_VERSION,
            n == kept.len(),
            kept == kept_layers(layers@),
            kept == layers@.take(n as int),
            i <= n <= MAX_LAYERS,
            first_layer_error(kept.take(i as int)) is None,
            shaders == shader_layer_count(kept.take(i as int)),
            total == kept_effect_count(kept.take(i as int)),
            shaders <= i,
            total <= MAX_EFFECTS_PER_LAYER * i,
            effects@.len() == i,
            passes@.len() == i,
            forall|k: int| 0 <= k < i ==> #[trigger] effects@[k] == min_of(kept[k].effects as int, MAX_EFFECTS_PER_LAYER as int),
            forall|k: int|
                0 <= k < i ==> #[trigger] passes@[k] == match kept[k].shader {
                    Some(sh) => kept_passes(sh).len() as int,
                    None => 0int,
                },
        decreases n - i,
    {
        let l = &layers[i];
        proof {
            assert(kept[i as int] == *l);
            lemma_drop_last_take(kept, i as int);
        }
        match check_layer(l) {
            Some(m) => {
                proof {
                    lemma_first_error_prefix(kept, i + 1);
                }
                return Err(m);
            },
            None => {},
        }
        let e = if l.effects < MAX_EFFECTS_PER_LAYER { l.effects } else { MAX_EFFECTS_PER_LAYER };
        effects.push(e);
        total = total + e;
        match &l.shader {
            Some(sh) => {
                shaders = shaders + 1;
                passes.push(if sh.passes.len() < MAX_PASSES { sh.passes.len() } else { MAX_PASSES });
            },
            None => {
                passes.push(0);
            },
        }
        i = i + 1;
    }
    proof {
        assert(kept.take(n as int) =~= kept);
    }
    if shaders > MAX_SHADER_LAYERS {
        let mut m = "too many shader layers (".to_owned();
        push_nat(&mut m, shaders as u64);
        crate::text::push_str(&mut m, " > 8)");
        return Err(m);
    }
    let g = if global_effects < MAX_GLOBAL_EFFECTS { global_effects } else { MAX_GLOBAL_EFFECTS };
    let all = total + g;
    if all > MAX_TOTAL_EFFECTS {
        let mut m = "too many effects (".to_owned();
        push_nat(&mut m, all as u64);
        crate::text::push_str(&mut m, " > 64)");
        return Err(m);
    }
    Ok(KeptSizes { layers: n, effects, passes, global_effects: g })
}

} // verus!
