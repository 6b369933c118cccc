//! Native tools implemented directly in this binary.

pub mod args;
pub mod context;
pub mod eval;
pub mod fold;
pub mod fs;
pub mod hex;
pub mod path;
pub mod schema;
pub mod ssh;
pub mod text;

use vstd::prelude::*;

use crate::config::model::{SshServerConfig, SshServerConfigView};
use crate::error::{ToolError, ToolErrorView};
use crate::modules::everything::{everything_tools, EverythingModule};
use crate::modules::resx::{resx_tools, ResxModule};
use crate::protocol::mcp::{Tool, ToolView};
use crate::text::views;
pub use context::{OnDisk, ToolContext};

verus! {

/// A group of related native tools.
pub enum NativeGroup {
    Text,
    Fs,
    Hex,
    Resx,
    Search,
    Eval,
    Ssh(ssh::SshTools),
}

/// What a [`NativeGroup`] is.
pub enum NativeGroupView {
    Text,
    Fs,
    Hex,
    Resx,
    Search,
    Eval,
    Ssh(ssh::SshToolsView),
}

impl View for NativeGroup {
    type V = NativeGroupView;

    open spec fn view(&self) -> NativeGroupView {
        match self {
            NativeGroup::Text => NativeGroupView::Text,
            NativeGroup::Fs => NativeGroupView::Fs,
            NativeGroup::Hex => NativeGroupView::Hex,
            NativeGroup::Resx => NativeGroupView::Resx,
            NativeGroup::Search => NativeGroupView::Search,
            NativeGroup::Eval => NativeGroupView::Eval,
            NativeGroup::Ssh(tools) => NativeGroupView::Ssh(tools@),
        }
    }
}

impl NativeGroupView {
    /// What the group advertises.
    pub open spec fn descriptors(self) -> Seq<ToolView> {
        match self {
            NativeGroupView::Text => text::text_tools(),
            NativeGroupView::Fs => seq![fs::search_tool()],
            NativeGroupView::Hex => seq![hex::view_tool(), hex::patch_tool()],
            NativeGroupView::Resx => resx_tools(),
            NativeGroupView::Search => everything_tools(),
            NativeGroupView::Eval => seq![eval::eval_tool()],
            NativeGroupView::Ssh(_) => seq![ssh::execute_tool(), ssh::list_tool()],
        }
    }
}

impl NativeGroup {
    /// What the group advertises.
    pub fn descriptors(&self) -> (r: Vec<Tool>)
        ensures
            views(r@) == self@.descriptors(),
    {
        match self {
            NativeGroup::Text => text::TextTools.descriptors(),
            NativeGroup::Fs => fs::FsTools.descriptors(),
            NativeGroup::Hex => hex::HexTools.descriptors(),
            NativeGroup::Resx => ResxModule::new().tools(),
            NativeGroup::Search => EverythingModule::new().tools(),
            NativeGroup::Eval => eval::EvalTools.descriptors(),
            NativeGroup::Ssh(tools) => tools.descriptors(),
        }
    }
}

/// The groups in registration order; the one on SSH servers is there only where
/// a server is.
pub open spec fn native_groups(configs: Seq<SshServerConfigView>) -> Seq<NativeGroupView> {
    let always = seq![
        NativeGroupView::Text,
        NativeGroupView::Fs,
        NativeGroupView::Hex,
        NativeGroupView::Resx,
        NativeGroupView::Search,
        NativeGroupView::Eval,
    ];
    if ssh::configured(configs).servers.len() > 0 {
        always.push(NativeGroupView::Ssh(ssh::configured(configs)))
    } else {
        always
    }
}

/// Every native tool group, in registration order.
pub fn all() -> (r: Vec<NativeGroup>)
    ensures
        views(r@) == native_groups(seq![]),
{
    let none: Vec<SshServerConfig> = Vec::new();
    assert(views(none@) =~= seq![]);
    all_with_ssh(none)
}

/// Every native tool group, with the one on configured SSH servers where there
/// are any.
pub fn all_with_ssh(configs: Vec<SshServerConfig>) -> (r: Vec<NativeGroup>)
    ensures
        views(r@) == native_groups(views(configs@)),
{
    let mut groups: Vec<NativeGroup> = vec![
        NativeGroup::Text,
        NativeGroup::Fs,
        NativeGroup::Hex,
        NativeGroup::Resx,
        NativeGroup::Search,
        NativeGroup::Eval,
    ];
    let tools = ssh::SshTools::new(configs);
    if tools.servers().len() > 0 {
        groups.push(NativeGroup::Ssh(tools));
    }
    assert(views(groups@) =~= native_groups(views(configs@)));
    groups
}

/// The error for a tool that a group does not have.
pub open spec fn unknown_tool(name: Seq<char>) -> ToolErrorView {
    ToolErrorView::NotFound(name)
}

/// Used by tool groups to reject a name they do not implement. Reaching this is
/// a routing bug rather than a user error.
pub fn unknown(name: &str) -> (r: ToolError)
    ensures
        r@ == unknown_tool(name@),
{
    ToolError::NotFound(name.to_owned())
}

/// The SSH tools are there exactly where a server is enabled.
pub proof fn lemma_ssh_tools_need_a_server(configs: Seq<SshServerConfigView>)
    ensures
        (exists|i: int| 0 <= i < native_groups(configs).len() && (#[trigger] native_groups(configs)[i])
            is Ssh) <==> exists|k: int| 0 <= k < configs.len() && (#[trigger] configs[k]).enabled,
{
    lemma_servers_known(configs);
    let groups = native_groups(configs);
    if ssh::configured(configs).servers.len() > 0 {
        assert(groups[6] is Ssh);
    } else {
        assert forall|i: int| 0 <= i < groups.len() implies !((#[trigger] groups[i]) is Ssh) by {}
    }
}

proof fn lemma_servers_known(configs: Seq<SshServerConfigView>)
    ensures
        ssh::configured(configs).servers.len() > 0 <==> exists|k: int|
            0 <= k < configs.len() && (#[trigger] configs[k]).enabled,
    decreases configs.len(),
{
    if configs.len() > 0 {
        let front = configs.drop_last();
        lemma_servers_known(front);
        let before = ssh::configured(front).servers;
        assert(ssh::configured(configs).servers == if configs.last().enabled {
            ssh::with_server(before, configs.last())
        } else {
            before
        });
        if configs.last().enabled {
            assert(configs[configs.len() - 1].enabled);
            ssh::lemma_server_named(before, configs.last().name, 0);
        } else if exists|k: int| 0 <= k < configs.len() && (#[trigger] configs[k]).enabled {
            let k = choose|k: int| 0 <= k < configs.len() && (#[trigger] configs[k]).enabled;
            assert(k < front.len());
            assert(front[k].enabled);
        }
        if exists|k: int| 0 <= k < front.len() && (#[trigger] front[k]).enabled {
            let k = choose|k: int| 0 <= k < front.len() && (#[trigger] front[k]).enabled;
            assert(configs[k].enabled);
        }
    }
}

} // verus!
