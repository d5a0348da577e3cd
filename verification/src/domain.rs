//! The hub's data: devices, catalog artifacts, recommendations, chat
//! messages, conversations and runtime status, with their models.
use vstd::prelude::*;

verus! {

/// What the hub knows of the device it runs on.
#[derive(Debug, Clone)]
pub struct DeviceProfile {
    pub os: String,
    pub architecture: String,
    pub logical_cpus: usize,
    pub total_memory_bytes: Option<u64>,
    pub runtime_reachable: bool,
}

/// One installable model of the catalog.
#[derive(Debug, Clone)]
pub struct ModelArtifact {
    pub id: String,
    pub family: String,
    pub display_name: String,
    pub runtime_model: String,
    pub parameter_label: String,
    pub download_bytes: u64,
    pub estimated_peak_ram_bytes: u64,
    pub context_tokens: u32,
    pub capabilities: Vec<String>,
    pub platforms: Vec<String>,
    pub lifecycle: String,
    pub source_url: String,
}

/// The model of a catalog artifact.
pub struct ArtifactView {
    pub id: Seq<char>,
    pub family: Seq<char>,
    pub display_name: Seq<char>,
    pub runtime_model: Seq<char>,
    pub parameter_label: Seq<char>,
    pub download_bytes: u64,
    pub estimated_peak_ram_bytes: u64,
    pub context_tokens: u32,
    pub capabilities: Seq<Seq<char>>,
    pub platforms: Seq<Seq<char>>,
    pub lifecycle: Seq<char>,
    pub source_url: Seq<char>,
}

/// The characters of each string of `v`.
pub open spec fn strings_view(v: Seq<String>) -> Seq<Seq<char>> {
    v.map_values(|s: String| s@)
}

impl View for ModelArtifact {
    type V = ArtifactView;

    open spec fn view(&self) -> ArtifactView {
        ArtifactView {
            id: self.id@,
            family: self.family@,
            display_name: self.display_name@,
            runtime_model: self.runtime_model@,
            parameter_label: self.parameter_label@,
            download_bytes: self.download_bytes,
            estimated_peak_ram_bytes: self.estimated_peak_ram_bytes,
            context_tokens: self.context_tokens,
            capabilities: strings_view(self.capabilities@),
            platforms: strings_view(self.platforms@),
            lifecycle: self.lifecycle@,
            source_url: self.source_url@,
        }
    }
}

/// A copy of a list of strings.
pub fn copy_strings(v: &Vec<String>) -> (out: Vec<String>)
    ensures
        strings_view(out@) == strings_view(v@),
{
    let mut out: Vec<String> = Vec::new();
    let mut i: usize = 0;
    while i < v.len()
        invariant
            i <= v@.len(),
            out@.len() == i,
            forall|k: int| 0 <= k < i ==> (#[trigger] out@[k])@ == v@[k]@,
        decreases v.len() - i,
    {
        out.push(v[i].clone());
        i = i + 1;
    }
    assert(strings_view(out@) =~= strings_view(v@));
    out
}

impl ModelArtifact {
    /// A copy of the artifact.
    pub fn duplicate(&self) -> (r: ModelArtifact)
        ensures
            r@ == self@,
    {
        ModelArtifact {
            id: self.id.clone(),
            family: self.family.clone(),
            display_name: self.display_name.clone(),
            runtime_model: self.runtime_model.clone(),
            parameter_label: self.parameter_label.clone(),
            download_bytes: self.download_bytes,
            estimated_peak_ram_bytes: self.estimated_peak_ram_bytes,
            context_tokens: self.context_tokens,
            capabilities: copy_strings(&self.capabilities),
            platforms: copy_strings(&self.platforms),
            lifecycle: self.lifecycle.clone(),
            source_url: self.source_url.clone(),
        }
    }
}

/// A catalog artifact with how well it fits the device.
#[derive(Debug, Clone)]
pub struct ModelRecommendation {
    pub artifact: ModelArtifact,
    pub fit: String,
    pub fit_score: u8,
    pub reason: String,
    pub installed: bool,
}

/// The model of a recommendation.
pub struct RecommendationView {
    pub artifact: ArtifactView,
    pub fit: Seq<char>,
    pub fit_score: u8,
    pub reason: Seq<char>,
    pub installed: bool,
}

impl View for ModelRecommendation {
    type V = RecommendationView;

    open spec fn view(&self) -> RecommendationView {
        RecommendationView {
            artifact: self.artifact@,
            fit: self.fit@,
            fit_score: self.fit_score,
            reason: self.reason@,
            installed: self.installed,
        }
    }
}

/// One message of a chat.
#[derive(Debug, Clone)]
pub struct ChatMessage {
    pub role: String,
    pub content: String,
}

/// The model of a chat message: its role and content.
pub struct MessageView {
    pub role: Seq<char>,
    pub content: Seq<char>,
}

impl View for ChatMessage {
    type V = MessageView;

    open spec fn view(&self) -> MessageView {
        MessageView { role: self.role@, content: self.content@ }
    }
}

/// The models of a list of messages.
pub open spec fn messages_view(v: Seq<ChatMessage>) -> Seq<MessageView> {
    v.map_values(|m: ChatMessage| m@)
}

impl ChatMessage {
    /// A copy of the message.
    pub fn duplicate(&self) -> (r: ChatMessage)
        ensures
            r@ == self@,
    {
        ChatMessage { role: self.role.clone(), content: self.content.clone() }
    }
}

/// A copy of a list of messages.
pub fn copy_messages(v: &Vec<ChatMessage>) -> (out: Vec<ChatMessage>)
    ensures
        messages_view(out@) == messages_view(v@),
{
    let mut out: Vec<ChatMessage> = Vec::new();
    let mut i: usize = 0;
    while i < v.len()
        invariant
            i <= v@.len(),
            out@.len() == i,
            forall|k: int| 0 <= k < i ==> (#[trigger] out@[k])@ == v@[k]@,
        decreases v.len() - i,
    {
        out.push(v[i].duplicate());
        i = i + 1;
    }
    assert(messages_view(out@) =~= messages_view(v@));
    out
}

/// A stored conversation.
#[derive(Debug, Clone)]
pub struct Conversation {
    pub id: String,
    pub title: String,
    pub model: String,
    pub messages: Vec<ChatMessage>,
    pub updated_at_epoch_seconds: u64,
}

/// The model of a conversation.
pub struct ConversationView {
    pub id: Seq<char>,
    pub title: Seq<char>,
    pub model: Seq<char>,
    pub messages: Seq<MessageView>,
    pub updated_at_epoch_seconds: u64,
}

impl View for Conversation {
    type V = ConversationView;

    open spec fn view(&self) -> ConversationView {
        ConversationView {
            id: self.id@,
            title: self.title@,
            model: self.model@,
            messages: messages_view(self.messages@),
            updated_at_epoch_seconds: self.updated_at_epoch_seconds,
        }
    }
}

impl Conversation {
    /// A copy of the conversation.
    pub fn duplicate(&self) -> (r: Conversation)
        ensures
            r@ == self@,
    {
        Conversation {
            id: self.id.clone(),
            title: self.title.clone(),
            model: self.model.clone(),
            messages: copy_messages(&self.messages),
            updated_at_epoch_seconds: self.updated_at_epoch_seconds,
        }
    }
}

/// A chat request of the hub's own chat screen.
#[derive(Debug, Clone)]
pub struct ChatRequest {
    pub conversation_id: Option<String>,
    pub model: String,
    pub messages: Vec<ChatMessage>,
}

/// What a runtime adapter can do.
#[derive(Debug, Clone)]
pub struct RuntimeCapabilities {
    pub install: bool,
    pub chat: bool,
    pub chat_completions: bool,
    pub streaming: bool,
    pub structured_output: Vec<String>,
    pub embeddings: bool,
    pub model_details: bool,
}

/// The state of the model runtime as the hub sees it.
#[derive(Debug, Clone)]
pub struct RuntimeStatus {
    pub kind: String,
    pub endpoint_id: String,
    pub reachable: bool,
    pub installed_models: Vec<String>,
    pub capabilities: RuntimeCapabilities,
}

/// The body of an error answer of the hub's own API.
#[derive(Debug, Clone)]
pub struct ApiError {
    pub error: String,
}

} // verus!
