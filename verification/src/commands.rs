//! The command line of znote: its commands and their arguments. The
//! application parses the command line into these values.

use vstd::prelude::*;

verus! {

/// The whole command line.
#[derive(Debug)]
pub struct Cli {
    pub command: Commands,
    /// Storage directory for data (`~/.local/share/znote` by default).
    pub data_dir: String,
}

/// The top-level commands.
#[derive(Debug)]
#[allow(inconsistent_fields)]
pub enum Commands {
    /// Note management.
    Note { command: NoteCommands },
    /// Show version information.
    Version,
    /// Bookmark management.
    Bookmark { command: BookmarkCommands },
    /// Task management.
    Task { command: TaskCommands },
    /// Search across all data.
    Search { command: SearchCommands },
    /// Configuration management.
    Config { command: ConfigCommands },
    /// Manage distributed dolt storage.
    Dolt { command: DoltCommands },
    /// Data validation.
    Validate { command: ValidateCommands },
    /// Sync with the file system.
    Sync,
    /// Visualise or export the graph of connected entities.
    Graph(GraphArgs),
    /// Serve the web interface.
    Serve(ServeArgs),
    /// Generate shell completion scripts.
    Completions { shell: ShellChoice },
    /// Dynamic completion helper: list the ids of an entity type.
    Complete { entity: String },
    /// Agent-specific commands.
    Agent { command: AgentCommands },
}

/// Agent-specific commands.
#[derive(Debug, Clone, Copy, PartialEq, Eq, Structural)]
pub enum AgentCommands {
    /// Generate a SKILL.md file for agents.
    Skill,
}

/// The shells completion scripts are generated for.
#[derive(Debug, Clone, Copy, PartialEq, Eq, Structural)]
pub enum ShellChoice {
    Bash,
    Zsh,
    Fish,
    Powershell,
}

/// Note commands.
#[derive(Debug)]
pub enum NoteCommands {
    Add(NoteAddArgs),
    List,
    View { id: String },
    Update(UpdateArgs),
    Edit { id: String },
    Delete { id: String },
}

/// Bookmark commands.
#[derive(Debug)]
pub enum BookmarkCommands {
    Add(BookmarkAddArgs),
    List,
    View { id: String },
    Update(UpdateArgs),
    Edit { id: String },
    Delete { id: String },
}

/// Task commands: those of notes, and `item` for the checklist.
#[derive(Debug)]
pub enum TaskCommands {
    Add(TaskAddArgs),
    List,
    View { id: String },
    Update(UpdateArgs),
    Edit { id: String },
    Delete { id: String },
    Item { task_id: String, command: ItemCommands },
}

/// Checklist commands; indices count from 1.
#[derive(Debug)]
pub enum ItemCommands {
    Add(ItemAddArgs),
    Check { index: usize },
    Uncheck { index: usize },
    Update(ItemUpdateArgs),
    Remove { index: usize },
}

/// A new checklist item.
#[derive(Debug)]
pub struct ItemAddArgs {
    pub text: String,
    /// Tags separated by spaces or commas.
    pub tags: Option<String>,
}

/// Changes to a checklist item.
#[derive(Debug)]
pub struct ItemUpdateArgs {
    /// 1-based position of the item.
    pub index: usize,
    pub text: Option<String>,
    pub tags: Option<String>,
}

/// A new note.
#[derive(Debug)]
pub struct NoteAddArgs {
    pub content: String,
    pub title: Option<String>,
    pub tags: Option<String>,
    /// Outgoing links, `relationship:id`.
    pub links: Option<String>,
}

/// A new bookmark.
#[derive(Debug)]
pub struct BookmarkAddArgs {
    pub url: String,
    pub title: Option<String>,
    pub tags: Option<String>,
    pub links: Option<String>,
}

/// A new task.
#[derive(Debug)]
pub struct TaskAddArgs {
    pub content: String,
    pub title: Option<String>,
    pub tags: Option<String>,
    pub links: Option<String>,
}

/// Changes to an entity; absent fields stay as they are.
#[derive(Debug)]
pub struct UpdateArgs {
    /// Id prefix of the entity.
    pub id: String,
    pub title: Option<String>,
    /// New body (notes) or description (bookmarks, `-` for standard input).
    pub content: Option<String>,
    /// New URL (bookmarks).
    pub url: Option<String>,
    /// Replacement tags.
    pub tags: Option<String>,
    /// Replacement links.
    pub links: Option<String>,
}

/// Search commands.
#[derive(Debug)]
pub enum SearchCommands {
    /// Full-text search with ripgrep.
    Rip { args: Vec<String> },
    /// Filter entities with a boolean expression.
    Query { expr: String },
}

/// Configuration commands.
#[derive(Debug, Clone, Copy, PartialEq, Eq, Structural)]
pub enum ConfigCommands {
    Show,
}

/// Validation commands.
#[derive(Debug, Clone, Copy, PartialEq, Eq, Structural)]
pub enum ValidateCommands {
    Frontmatter,
}

/// Options of the graph command.
#[derive(Debug)]
pub struct GraphArgs {
    /// The output format; `Show` when absent.
    pub command: Option<GraphCommands>,
    /// Leave out nodes without edges.
    pub without_isolated: bool,
    /// Keep only this entity type (note, bookmark, task).
    pub entity_type: Option<String>,
    /// Keep only nodes with this tag.
    pub tag: Option<String>,
    /// Do not show tags.
    pub hide_tags: bool,
}

/// Output formats of the graph.
#[derive(Debug, Clone, Copy, PartialEq, Eq, Structural)]
pub enum GraphCommands {
    Show,
    Dot,
    Json,
    Mermaid,
}

/// Options of the web server.
#[derive(Debug)]
pub struct ServeArgs {
    pub port: u16,
    pub host: String,
}

/// Dolt commands.
#[derive(Debug)]
pub enum DoltCommands {
    Sync,
    RemoteAdd { name: String, url: String },
    Pull { remote: String },
    Push { remote: String },
}

} // verus!
