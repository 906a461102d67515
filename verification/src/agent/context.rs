//! The prompts an agent works from: the system prompt with its
//! instructions, skills and memory, and the user message that shows the
//! ticket.

use vstd::prelude::*;

use crate::agent::tools::{main_tool_names, main_tools};
use crate::config::{AppConfig, SubagentConfig};
use crate::memory::context_repo::{description_of, pinned_from, ContextRepository, MemoryFile};
use crate::models::{format_minute, minute_text, Comment, CommentCompaction, Member, Ticket, TicketSummary};
use crate::text::{
    str_to_string, decimal, decimal_string, join_strings, joined_by, opt_view, pair_views, push_str, replace_all,
    replaced, views_of,
};

verus! {

broadcast use vstd::string::group_string_axioms;

/// The skills of a ticket: those the agent may ask about (name and
/// description) and those that apply (name and instructions).
pub struct SkillContext {
    pub available: Vec<(String, String)>,
    pub active: Vec<(String, String)>,
}

/// The two messages an agent starts from.
pub struct TicketContext {
    pub system: String,
    pub user: String,
}

/// `"\n### name\nbody"` for each skill from index `k` on.
pub open spec fn skill_bodies_from(items: Seq<(Seq<char>, Seq<char>)>, k: int) -> Seq<char>
    decreases items.len() - k,
{
    if k < 0 || k >= items.len() {
        seq![]
    } else {
        "\n### "@ + items[k].0 + "\n"@ + items[k].1 + skill_bodies_from(items, k + 1)
    }
}

/// `"\n- **name**: description"` for each item from index `k` on.
pub open spec fn bullets_from(items: Seq<(Seq<char>, Seq<char>)>, k: int) -> Seq<char>
    decreases items.len() - k,
{
    if k < 0 || k >= items.len() {
        seq![]
    } else {
        "\n- **"@ + items[k].0 + "**: "@ + items[k].1 + bullets_from(items, k + 1)
    }
}

/// The section of the skills that apply, with their instructions.
pub open spec fn active_section(items: Seq<(Seq<char>, Seq<char>)>) -> Seq<char> {
    "\n## Active Skills"@ + skill_bodies_from(items, 0)
}

/// The section of the skills the agent may ask about.
pub open spec fn available_section(items: Seq<(Seq<char>, Seq<char>)>) -> Seq<char> {
    "\n## Available Skills"@ + bullets_from(items, 0)
}

/// The section of the subagents the agent may dispatch to.
pub open spec fn subagents_section(items: Seq<(Seq<char>, Seq<char>)>) -> Seq<char> {
    "\n## Available Subagents"@ + bullets_from(items, 0)
}

/// One line of the memory index per note from index `k` on: its path, and
/// its description after a dash where it has one.
pub open spec fn index_lines_from(files: Seq<MemoryFile>, k: int) -> Seq<char>
    decreases files.len() - k,
{
    if k < 0 || k >= files.len() {
        seq![]
    } else {
        let d = description_of(files[k].content@);
        (if d.len() == 0 {
            "\n- "@ + files[k].path@
        } else {
            "\n- "@ + files[k].path@ + " — "@ + d
        }) + index_lines_from(files, k + 1)
    }
}

/// `"\n\n### path\ntext"` for each pinned note from index `k` on.
pub open spec fn pinned_text_from(items: Seq<(Seq<char>, Seq<char>)>, k: int) -> Seq<char>
    decreases items.len() - k,
{
    if k < 0 || k >= items.len() {
        seq![]
    } else {
        "\n\n### "@ + items[k].0 + "\n"@ + items[k].1 + pinned_text_from(items, k + 1)
    }
}

/// The memory section of a system prompt: the index of the notes, or a
/// remark that there are none, then the pinned notes in full.
pub open spec fn repo_section(files: Seq<MemoryFile>) -> Seq<char> {
    let pinned = pinned_from(files, 0);
    "\n## Context Repository"@ + (if files.len() == 0 {
        "\n*(empty — no memory files yet)*"@
    } else {
        index_lines_from(files, 0)
    }) + (if pinned.len() == 0 {
        Seq::<char>::empty()
    } else {
        "\n\n## Context Repository (pinned)"@ + pinned_text_from(pinned, 0)
    })
}

fn skill_bodies(items: &Vec<(String, String)>) -> (r: String)
    ensures
        r@ == skill_bodies_from(pair_views(items@), 0),
{
    let ghost iv = pair_views(items@);
    let mut out = String::new();
    let mut k: usize = 0;
    while k < items.len()
        invariant
            k <= items@.len(),
            iv == pair_views(items@),
            out@ + skill_bodies_from(iv, k as int) == skill_bodies_from(iv, 0),
        decreases items@.len() - k,
    {
        let ghost before = out@;
        push_str(&mut out, "\n### ");
        push_str(&mut out, items[k].0.as_str());
        push_str(&mut out, "\n");
        push_str(&mut out, items[k].1.as_str());
        assert(out@ + skill_bodies_from(iv, k + 1) =~= before + skill_bodies_from(iv, k as int));
        k = k + 1;
    }
    assert(out@ =~= out@ + skill_bodies_from(iv, k as int));
    out
}

fn bullets(items: &Vec<(String, String)>) -> (r: String)
    ensures
        r@ == bullets_from(pair_views(items@), 0),
{
    let ghost iv = pair_views(items@);
    let mut out = String::new();
    let mut k: usize = 0;
    while k < items.len()
        invariant
            k <= items@.len(),
            iv == pair_views(items@),
            out@ + bullets_from(iv, k as int) == bullets_from(iv, 0),
        decreases items@.len() - k,
    {
        let ghost before = out@;
        push_str(&mut out, "\n- **");
        push_str(&mut out, items[k].0.as_str());
        push_str(&mut out, "**: ");
        push_str(&mut out, items[k].1.as_str());
        assert(out@ + bullets_from(iv, k + 1) =~= before + bullets_from(iv, k as int));
        k = k + 1;
    }
    assert(out@ =~= out@ + bullets_from(iv, k as int));
    out
}

fn pinned_text(items: &Vec<(String, String)>) -> (r: String)
    ensures
        r@ == pinned_text_from(pair_views(items@), 0),
{
    let ghost iv = pair_views(items@);
    let mut out = String::new();
    let mut k: usize = 0;
    while k < items.len()
        invariant
            k <= items@.len(),
            iv == pair_views(items@),
            out@ + pinned_text_from(iv, k as int) == pinned_text_from(iv, 0),
        decreases items@.len() - k,
    {
        let ghost before = out@;
        push_str(&mut out, "\n\n### ");
        push_str(&mut out, items[k].0.as_str());
        push_str(&mut out, "\n");
        push_str(&mut out, items[k].1.as_str());
        assert(out@ + pinned_text_from(iv, k + 1) =~= before + pinned_text_from(iv, k as int));
        k = k + 1;
    }
    assert(out@ =~= out@ + pinned_text_from(iv, k as int));
    out
}

/// The memory section of a system prompt (see `repo_section`).
pub fn build_context_repo_section(context_repo: &ContextRepository) -> (r: String)
    ensures
        r@ == repo_section(context_repo.files_view()),
{
    let ghost fv = context_repo.files_view();
    let mut section = String::new();
    push_str(&mut section, "\n## Context Repository");
    let entries = context_repo.list();
    if entries.len() == 0 {
        push_str(&mut section, "\n*(empty — no memory files yet)*");
    } else {
        let ghost start = section@;
        let mut k: usize = 0;
        while k < entries.len()
            invariant
                k <= entries@.len(),
                entries@.len() == fv.len(),
                forall|i: int|
                    0 <= i < entries@.len() ==> (#[trigger] entries@[i]).path@ == fv[i].path@
                        && entries@[i].description@ == description_of(fv[i].content@),
                section@ + index_lines_from(fv, k as int) == start + index_lines_from(fv, 0),
            decreases entries@.len() - k,
        {
            let ghost before = section@;
            let e = &entries[k];
            push_str(&mut section, "\n- ");
            push_str(&mut section, e.path.as_str());
            if !e.description.as_str().is_empty() {
                push_str(&mut section, " — ");
                push_str(&mut section, e.description.as_str());
            }
            assert(section@ + index_lines_from(fv, k + 1) =~= before + index_lines_from(
                fv,
                k as int,
            ));
            k = k + 1;
        }
        assert(section@ =~= section@ + index_lines_from(fv, k as int));
    }
    let pinned = context_repo.system_files();
    if pinned.len() > 0 {
        push_str(&mut section, "\n\n## Context Repository (pinned)");
        let t = pinned_text(&pinned);
        push_str(&mut section, t.as_str());
    }
    section
}

/// The first part of a subagent's system prompt: its name, role and tools.
pub open spec fn subagent_intro(sub: SubagentConfig) -> Seq<char> {
    "You are a specialized subagent named '"@ + sub.name@ + "'. Your role: "@ + sub.description@
        + "\n\nAvailable tools: "@ + joined_by(views_of(sub.tools@), ", "@)
        + ", return.\n\nUse `return(result)` when you have completed your task — pass back a concise result summary.\nDo NOT call `comment`, `done`, or `skip` unless they are in your available tools."@
}

/// The parts of a subagent's system prompt: its own prompt where it has one,
/// its introduction, the memory section, and the skills that apply where
/// there are some.
pub open spec fn subagent_prompt_parts(
    sub: SubagentConfig,
    files: Seq<MemoryFile>,
    skills: Option<SkillContext>,
) -> Seq<Seq<char>> {
    let a: Seq<Seq<char>> = match sub.system_prompt {
        Some(p) => seq![p@],
        None => seq![],
    };
    let b = a.push(subagent_intro(sub)).push(repo_section(files));
    match skills {
        Some(ctx) => if ctx.active@.len() > 0 {
            b.push(active_section(pair_views(ctx.active@)))
        } else {
            b
        },
        None => b,
    }
}

/// The system prompt of a subagent: its parts, one per line.
pub fn build_subagent_system_prompt(
    subagent_cfg: &SubagentConfig,
    context_repo: &ContextRepository,
    skill_ctx: Option<&SkillContext>,
) -> (r: String)
    ensures
        r@ == joined_by(
            subagent_prompt_parts(
                *subagent_cfg,
                context_repo.files_view(),
                match skill_ctx {
                    Some(c) => Some(*c),
                    None => None,
                },
            ),
            "\n"@,
        ),
{
    let mut parts: Vec<String> = Vec::new();
    match &subagent_cfg.system_prompt {
        Some(p) => parts.push(p.clone()),
        None => {},
    }
    let mut intro = String::new();
    push_str(&mut intro, "You are a specialized subagent named '");
    push_str(&mut intro, subagent_cfg.name.as_str());
    push_str(&mut intro, "'. Your role: ");
    push_str(&mut intro, subagent_cfg.description.as_str());
    push_str(&mut intro, "\n\nAvailable tools: ");
    let tools = join_strings(subagent_cfg.tools.as_slice(), ", ");
    push_str(&mut intro, tools.as_str());
    push_str(
        &mut intro,
        ", return.\n\nUse `return(result)` when you have completed your task — pass back a concise result summary.\nDo NOT call `comment`, `done`, or `skip` unless they are in your available tools.",
    );
    parts.push(intro);
    parts.push(build_context_repo_section(context_repo));
    match skill_ctx {
        Some(ctx) => {
            if ctx.active.len() > 0 {
                let mut section = String::new();
                push_str(&mut section, "\n## Active Skills");
                let b = skill_bodies(&ctx.active);
                push_str(&mut section, b.as_str());
                parts.push(section);
            }
        },
        None => {},
    }
    let ghost expected = subagent_prompt_parts(
        *subagent_cfg,
        context_repo.files_view(),
        match skill_ctx {
            Some(c) => Some(*c),
            None => None,
        },
    );
    assert(views_of(parts@) =~= expected);
    let r = join_strings(parts.as_slice(), "\n");
    proof {
        reveal_strlit("\n");
        reveal_strlit(", ");
    }
    r
}

/// The instructions of the main agent: the template with `{agent_name}` and
/// `{tools}` filled in.
pub open spec fn filled_template(template: Seq<char>, agent_name: Seq<char>) -> Seq<char> {
    replaced(replaced(template, "{agent_name}"@, agent_name), "{tools}"@, joined_by(main_tool_names(), ", "@))
}

/// The parts of the main agent's system prompt: the instructions (for a
/// dispatcher where there are subagents, with the list of them), the skills
/// it may ask about, the instructions of `AGENTS.md`, the skills that apply
/// and the memory section.
pub open spec fn system_prompt_parts(
    main_template: Seq<char>,
    dispatcher_template: Seq<char>,
    agent_name: Seq<char>,
    files: Seq<MemoryFile>,
    skills: Option<SkillContext>,
    subagents: Seq<(Seq<char>, Seq<char>)>,
    agents_md: Option<Seq<char>>,
) -> Seq<Seq<char>> {
    let a: Seq<Seq<char>> = if subagents.len() == 0 {
        seq![filled_template(main_template, agent_name)]
    } else {
        seq![filled_template(dispatcher_template, agent_name), subagents_section(subagents)]
    };
    let b = match skills {
        Some(ctx) => if ctx.available@.len() > 0 {
            a.push(available_section(pair_views(ctx.available@)))
        } else {
            a
        },
        None => a,
    };
    let c = match agents_md {
        Some(md) => b.push("\n## Agent Instructions\n"@ + md),
        None => b,
    };
    let d = match skills {
        Some(ctx) => if ctx.active@.len() > 0 {
            c.push(active_section(pair_views(ctx.active@)))
        } else {
            c
        },
        None => c,
    };
    d.push(repo_section(files))
}

fn tools_line() -> (r: String)
    ensures
        r@ == joined_by(main_tool_names(), ", "@),
{
    let names = main_tools();
    let mut owned: Vec<String> = Vec::new();
    let mut i: usize = 0;
    while i < names.len()
        invariant
            i <= names@.len(),
            names@.len() == main_tool_names().len(),
            forall|k: int| 0 <= k < names@.len() ==> (#[trigger] names@[k])@ == main_tool_names()[k],
            views_of(owned@) == main_tool_names().subrange(0, i as int),
        decreases names@.len() - i,
    {
        let mut s = String::new();
        push_str(&mut s, names[i]);
        let ghost before = views_of(owned@);
        let ghost sv = s@;
        owned.push(s);
        assert(views_of(owned@) =~= before.push(sv));
        i = i + 1;
        assert(views_of(owned@) =~= main_tool_names().subrange(0, i as int));
    }
    assert(main_tool_names().subrange(0, i as int) =~= main_tool_names());
    let r = join_strings(owned.as_slice(), ", ");
    proof {
        reveal_strlit(", ");
    }
    r
}

fn fill_template(template: &str, agent_name: &str) -> (r: String)
    ensures
        r@ == filled_template(template@, agent_name@),
{
    proof {
        reveal_strlit("{agent_name}");
        reveal_strlit("{tools}");
    }
    let a = replace_all(template, "{agent_name}", agent_name);
    let tools = tools_line();
    replace_all(a.as_str(), "{tools}", tools.as_str())
}

/// The system prompt of the main agent: its parts (see
/// `system_prompt_parts`), one per line. The instruction templates of the
/// main agent and of a dispatcher are given.
pub fn build_system_prompt(
    main_template: &str,
    dispatcher_template: &str,
    context_repo: &ContextRepository,
    app_cfg: &AppConfig,
    skill_ctx: Option<&SkillContext>,
    subagents: &Vec<(String, String)>,
    agents_md: Option<&str>,
) -> (r: String)
    ensures
        r@ == joined_by(
            system_prompt_parts(
                main_template@,
                dispatcher_template@,
                app_cfg.agent.name@,
                context_repo.files_view(),
                match skill_ctx {
                    Some(c) => Some(*c),
                    None => None,
                },
                pair_views(subagents@),
                match agents_md {
                    Some(m) => Some(m@),
                    None => None,
                },
            ),
            "\n"@,
        ),
{
    let mut parts: Vec<String> = Vec::new();
    if subagents.len() == 0 {
        parts.push(fill_template(main_template, app_cfg.agent.name.as_str()));
    } else {
        parts.push(fill_template(dispatcher_template, app_cfg.agent.name.as_str()));
        let mut section = String::new();
        push_str(&mut section, "\n## Available Subagents");
        let b = bullets(subagents);
        push_str(&mut section, b.as_str());
        parts.push(section);
    }
    match skill_ctx {
        Some(ctx) => {
            if ctx.available.len() > 0 {
                let mut section = String::new();
                push_str(&mut section, "\n## Available Skills");
                let b = bullets(&ctx.available);
                push_str(&mut section, b.as_str());
                parts.push(section);
            }
        },
        None => {},
    }
    match agents_md {
        Some(md) => {
            let mut section = String::new();
            push_str(&mut section, "\n## Agent Instructions\n");
            push_str(&mut section, md);
            parts.push(section);
        },
        None => {},
    }
    match skill_ctx {
        Some(ctx) => {
            if ctx.active.len() > 0 {
                let mut section = String::new();
                push_str(&mut section, "\n## Active Skills");
                let b = skill_bodies(&ctx.active);
                push_str(&mut section, b.as_str());
                parts.push(section);
            }
        },
        None => {},
    }
    parts.push(build_context_repo_section(context_repo));
    let ghost expected = system_prompt_parts(
        main_template@,
        dispatcher_template@,
        app_cfg.agent.name@,
        context_repo.files_view(),
        match skill_ctx {
            Some(c) => Some(*c),
            None => None,
        },
        pair_views(subagents@),
        match agents_md {
            Some(m) => Some(m@),
            None => None,
        },
    );
    assert(views_of(parts@) =~= expected);
    let r = join_strings(parts.as_slice(), "\n");
    proof {
        reveal_strlit("\n");
    }
    r
}

/// `- [x] title (id: id) url` for each sub-ticket from index `k` on, `[ ]`
/// for one that is not completed.
pub open spec fn sub_ticket_lines_from(subs: Seq<TicketSummary>, k: int) -> Seq<Seq<char>>
    decreases subs.len() - k,
{
    if k < 0 || k >= subs.len() {
        seq![]
    } else {
        seq![
            "- "@ + (if subs[k].completed {
                "[x]"@
            } else {
                "[ ]"@
            }) + " "@ + subs[k].title@ + " (id: "@ + subs[k].id@ + ") "@ + subs[k].url@,
        ] + sub_ticket_lines_from(subs, k + 1)
    }
}

/// `**@user** at time:\ncontent` for each comment from index `k` on, with
/// the given time texts.
pub open spec fn comment_lines_from(comments: Seq<Comment>, times: Seq<Seq<char>>, k: int) -> Seq<Seq<char>>
    decreases comments.len() - k,
{
    if k < 0 || k >= comments.len() {
        seq![]
    } else {
        seq!["**@"@ + comments[k].who.username@ + "** at "@ + times[k] + ":\n"@ + comments[k].content@]
            + comment_lines_from(comments, times, k + 1)
    }
}

/// The usernames of the members.
pub open spec fn usernames(ms: Seq<Member>) -> Seq<Seq<char>> {
    Seq::new(ms.len(), |i: int| ms[i].username@)
}

/// The lines of the user message that show the ticket itself: title, id,
/// column, URL, today's date, creator, assignees, description and
/// sub-tickets.
pub open spec fn ticket_head_parts(t: Ticket, today: Seq<char>) -> Seq<Seq<char>> {
    let s = t.summary;
    let a = seq![
        "# Ticket: "@ + s.title@,
        "**ID:** "@ + s.id@,
        "**Column:** "@ + s.list_name@,
        "**URL:** "@ + s.url@,
        "**Today's date:** "@ + today,
    ];
    let b = match s.creator {
        Some(c) => a.push("**Creator:** @"@ + c.username@),
        None => a,
    };
    let c = if t.assignees@.len() > 0 {
        b.push("**Assignees:** "@ + joined_by(usernames(t.assignees@), ", "@))
    } else {
        b
    };
    let d = if s.description@.len() > 0 {
        c.push("\n## Description\n"@ + s.description@)
    } else {
        c
    };
    if t.sub_tickets@.len() > 0 {
        d.push("\n## Sub-tickets"@) + sub_ticket_lines_from(t.sub_tickets@, 0)
    } else {
        d
    }
}

/// The line that summarises the compacted comments.
pub open spec fn compaction_line(cc: CommentCompaction, time: Seq<char>) -> Seq<char> {
    "*[Compacted: "@ + decimal(cc.compacted_count as nat) + " comments through "@ + time
        + "]*\n*Summary: "@ + cc.summary@ + "*"@
}

/// The lines of the comments section, after its heading: the compaction
/// summary where there is one (and a rule where comments follow), then the
/// comments.
pub open spec fn comment_block(
    t: Ticket,
    times: Seq<Seq<char>>,
    compacted_time: Option<Seq<char>>,
) -> Seq<Seq<char>> {
    let g: Seq<Seq<char>> = match t.comment_compaction {
        Some(cc) => {
            let h = seq![
                compaction_line(
                    cc,
                    match compacted_time {
                        Some(x) => x,
                        None => Seq::empty(),
                    },
                ),
            ];
            if t.comments@.len() > 0 {
                h.push("---"@)
            } else {
                h
            }
        },
        None => seq![],
    };
    g + comment_lines_from(t.comments@, times, 0)
}

/// The lines of the user message that shows a ticket, given today's date,
/// the time texts of its comments and that of its compaction: the ticket
/// itself, then, where there are comments or a compaction, the comments.
pub open spec fn user_message_parts(
    t: Ticket,
    today: Seq<char>,
    times: Seq<Seq<char>>,
    compacted_time: Option<Seq<char>>,
) -> Seq<Seq<char>> {
    if t.comment_compaction is Some || t.comments@.len() > 0 {
        ticket_head_parts(t, today).push("\n## Comments"@) + comment_block(t, times, compacted_time)
    } else {
        ticket_head_parts(t, today)
    }
}

proof fn lemma_sub_ticket_line(subs: Seq<TicketSummary>, k: int, m: int)
    requires
        0 <= k,
        0 <= m,
        k + m < subs.len(),
    ensures
        sub_ticket_lines_from(subs, k).len() == subs.len() - k,
        sub_ticket_lines_from(subs, k)[m] == (if subs[k + m].completed {
            "- [x] "@
        } else {
            "- [ ] "@
        }) + subs[k + m].title@ + " (id: "@ + subs[k + m].id@ + ") "@ + subs[k + m].url@,
    decreases subs.len() - k,
{
    let c = if subs[k].completed { "[x]"@ } else { "[ ]"@ };
    assert("- "@ + c + " "@ =~= if subs[k].completed { "- [x] "@ } else { "- [ ] "@ }) by {
        reveal_strlit("- ");
        reveal_strlit(" ");
        reveal_strlit("[x]");
        reveal_strlit("[ ]");
        reveal_strlit("- [x] ");
        reveal_strlit("- [ ] ");
    }
    if m > 0 {
        lemma_sub_ticket_line(subs, k + 1, m - 1);
    } else if k + 1 < subs.len() {
        lemma_sub_ticket_line(subs, k + 1, 0);
    } else {
        assert(sub_ticket_lines_from(subs, k + 1).len() == 0);
    }
}

/// Law of the user message: where the ticket has sub-tickets, the message
/// holds the `## Sub-tickets` heading and right after it one line per
/// sub-ticket, in order, marked `[x]` where the sub-ticket is completed and
/// `[ ]` where it is not, then its title, id and URL.
pub proof fn lemma_sub_ticket_lines_marked(
    t: Ticket,
    today: Seq<char>,
    times: Seq<Seq<char>>,
    compacted_time: Option<Seq<char>>,
)
    requires
        t.sub_tickets@.len() > 0,
    ensures
        ({
            let parts = user_message_parts(t, today, times, compacted_time);
            let subs = t.sub_tickets@;
            exists|h: int|
                0 <= h && h + subs.len() < parts.len() && parts[h] == "\n## Sub-tickets"@ && forall|k: int|
                    0 <= k < subs.len() ==> #[trigger] parts[h + 1 + k] == (if subs[k].completed {
                        "- [x] "@
                    } else {
                        "- [ ] "@
                    }) + subs[k].title@ + " (id: "@ + subs[k].id@ + ") "@ + subs[k].url@
        }),
{
    let parts = user_message_parts(t, today, times, compacted_time);
    let subs = t.sub_tickets@;
    let head = ticket_head_parts(t, today);
    let lines = sub_ticket_lines_from(subs, 0);
    lemma_sub_ticket_line(subs, 0, 0);
    let h = head.len() - subs.len() - 1;
    assert(head.subrange(0, h + 1).len() == h + 1);
    assert forall|k: int| 0 <= k < subs.len() implies #[trigger] head[h + 1 + k] == lines[k] by {
        lemma_sub_ticket_line(subs, 0, k);
    }
    assert(head[h] == "\n## Sub-tickets"@);
    assert forall|x: int| 0 <= x < head.len() implies #[trigger] parts[x] == head[x] by {
        if t.comment_compaction is Some || t.comments@.len() > 0 {
            assert(parts == head.push("\n## Comments"@) + comment_block(t, times, compacted_time));
        }
    }
    assert forall|k: int| 0 <= k < subs.len() implies #[trigger] parts[h + 1 + k] == (if subs[k].completed {
        "- [x] "@
    } else {
        "- [ ] "@
    }) + subs[k].title@ + " (id: "@ + subs[k].id@ + ") "@ + subs[k].url@ by {
        lemma_sub_ticket_line(subs, 0, k);
        assert(parts[h + 1 + k] == head[h + 1 + k]);
    }
    assert(parts[h] == head[h]);
}

proof fn lemma_comment_line(comments: Seq<Comment>, times: Seq<Seq<char>>, k: int, m: int)
    requires
        0 <= k <= comments.len(),
        0 <= m,
    ensures
        comment_lines_from(comments, times, k).len() == comments.len() - k,
        k + m < comments.len() ==> comment_lines_from(comments, times, k)[m] == "**@"@
            + comments[k + m].who.username@ + "** at "@ + times[k + m] + ":\n"@ + comments[k + m].content@,
    decreases comments.len() - k,
{
    if k < comments.len() {
        if m > 0 {
            lemma_comment_line(comments, times, k + 1, m - 1);
        } else {
            lemma_comment_line(comments, times, k + 1, 0);
        }
    }
}

/// Law of the user message: where the ticket has comments, the message ends
/// with one line per comment, in order, each giving the author's username,
/// the comment's time text and its content.
pub proof fn lemma_comment_lines_last(
    t: Ticket,
    today: Seq<char>,
    times: Seq<Seq<char>>,
    compacted_time: Option<Seq<char>>,
)
    requires
        t.comments@.len() > 0,
    ensures
        ({
            let parts = user_message_parts(t, today, times, compacted_time);
            let cs = t.comments@;
            &&& parts.len() >= cs.len()
            &&& forall|k: int|
                0 <= k < cs.len() ==> #[trigger] parts[parts.len() - cs.len() + k] == "**@"@
                    + cs[k].who.username@ + "** at "@ + times[k] + ":\n"@ + cs[k].content@
        }),
{
    let parts = user_message_parts(t, today, times, compacted_time);
    let cs = t.comments@;
    let lines = comment_lines_from(cs, times, 0);
    lemma_comment_line(cs, times, 0, 0);
    let g = comment_block(t, times, compacted_time);
    let front = ticket_head_parts(t, today).push("\n## Comments"@);
    assert(parts == front + g);
    let pre = g.subrange(0, g.len() - lines.len());
    assert(g == pre + lines) by {
        let gg: Seq<Seq<char>> = match t.comment_compaction {
            Some(cc) => {
                let h = seq![
                    compaction_line(
                        cc,
                        match compacted_time {
                            Some(x) => x,
                            None => Seq::empty(),
                        },
                    ),
                ];
                if t.comments@.len() > 0 {
                    h.push("---"@)
                } else {
                    h
                }
            },
            None => seq![],
        };
        assert(g == gg + lines);
        assert(pre =~= gg);
    }
    assert forall|k: int| 0 <= k < cs.len() implies #[trigger] parts[parts.len() - cs.len() + k] == "**@"@
        + cs[k].who.username@ + "** at "@ + times[k] + ":\n"@ + cs[k].content@ by {
        lemma_comment_line(cs, times, 0, k);
        assert(parts[parts.len() - cs.len() + k] == lines[k]);
    }
}

fn concat2(a: &str, b: &str) -> (r: String)
    ensures
        r@ == a@ + b@,
{
    let mut out = String::new();
    push_str(&mut out, a);
    push_str(&mut out, b);
    out
}

/// The user message that shows a ticket, given the texts of today's date,
/// of the times of its comments and of the time of its compaction: its lines
/// (see `user_message_parts`), one per line.
#[verifier::spinoff_prover]
#[verifier::rlimit(40)]
pub fn user_message_with(
    ticket: &Ticket,
    today: &str,
    comment_times: &Vec<String>,
    compacted_time: &Option<String>,
) -> (r: String)
    requires
        comment_times@.len() == ticket.comments@.len(),
        compacted_time is Some <==> ticket.comment_compaction is Some,
    ensures
        r@ == joined_by(
            user_message_parts(*ticket, today@, views_of(comment_times@), opt_view(*compacted_time)),
            "\n"@,
        ),
{
    let s = &ticket.summary;
    let mut parts: Vec<String> = Vec::new();
    parts.push(concat2("# Ticket: ", s.title.as_str()));
    parts.push(concat2("**ID:** ", s.id.as_str()));
    parts.push(concat2("**Column:** ", s.list_name.as_str()));
    parts.push(concat2("**URL:** ", s.url.as_str()));
    parts.push(concat2("**Today's date:** ", today));
    match &s.creator {
        Some(c) => parts.push(concat2("**Creator:** @", c.username.as_str())),
        None => {},
    }
    if ticket.assignees.len() > 0 {
        let mut names: Vec<String> = Vec::new();
        let mut i: usize = 0;
        while i < ticket.assignees.len()
            invariant
                i <= ticket.assignees@.len(),
                views_of(names@) == usernames(ticket.assignees@).subrange(0, i as int),
            decreases ticket.assignees@.len() - i,
        {
            let ghost before = views_of(names@);
            names.push(ticket.assignees[i].username.clone());
            assert(views_of(names@) =~= before.push(ticket.assignees@[i as int].username@));
            i = i + 1;
            assert(views_of(names@) =~= usernames(ticket.assignees@).subrange(0, i as int));
        }
        assert(usernames(ticket.assignees@).subrange(0, i as int) =~= usernames(ticket.assignees@));
        let joined = join_strings(names.as_slice(), ", ");
        proof {
            reveal_strlit(", ");
        }
        parts.push(concat2("**Assignees:** ", joined.as_str()));
    }
    if !s.description.as_str().is_empty() {
        parts.push(concat2("\n## Description\n", s.description.as_str()));
    }
    if ticket.sub_tickets.len() > 0 {
        parts.push(str_to_string("\n## Sub-tickets"));
        let ghost start = views_of(parts@);
        let mut k: usize = 0;
        while k < ticket.sub_tickets.len()
            invariant
                k <= ticket.sub_tickets@.len(),
                views_of(parts@) + sub_ticket_lines_from(ticket.sub_tickets@, k as int) == start
                    + sub_ticket_lines_from(ticket.sub_tickets@, 0),
            decreases ticket.sub_tickets@.len() - k,
        {
            let sub = &ticket.sub_tickets[k];
            let mut line = String::new();
            push_str(&mut line, "- ");
            if sub.completed {
                push_str(&mut line, "[x]");
            } else {
                push_str(&mut line, "[ ]");
            }
            push_str(&mut line, " ");
            push_str(&mut line, sub.title.as_str());
            push_str(&mut line, " (id: ");
            push_str(&mut line, sub.id.as_str());
            push_str(&mut line, ") ");
            push_str(&mut line, sub.url.as_str());
            let ghost before = views_of(parts@);
            let ghost lv = line@;
            parts.push(line);
            assert(views_of(parts@) =~= before.push(lv));
            assert(views_of(parts@) + sub_ticket_lines_from(ticket.sub_tickets@, k + 1) =~= before
                + sub_ticket_lines_from(ticket.sub_tickets@, k as int));
            k = k + 1;
        }
        assert(views_of(parts@) =~= views_of(parts@) + sub_ticket_lines_from(
            ticket.sub_tickets@,
            k as int,
        ));
    }
    if ticket.comment_compaction.is_some() || ticket.comments.len() > 0 {
        assert(views_of(parts@) =~= ticket_head_parts(*ticket, today@));
        let ghost head = views_of(parts@);
        parts.push(str_to_string("\n## Comments"));
        let ghost block_start = views_of(parts@);
        match &ticket.comment_compaction {
            Some(cc) => {
                let mut line = String::new();
                push_str(&mut line, "*[Compacted: ");
                let n = decimal_string(cc.compacted_count as u64);
                push_str(&mut line, n.as_str());
                push_str(&mut line, " comments through ");
                match compacted_time {
                    Some(x) => push_str(&mut line, x.as_str()),
                    None => {},
                }
                push_str(&mut line, "]*\n*Summary: ");
                push_str(&mut line, cc.summary.as_str());
                push_str(&mut line, "*");
                parts.push(line);
                if ticket.comments.len() > 0 {
                    parts.push(str_to_string("---"));
                }
            },
            None => {},
        }
        let ghost start = views_of(parts@);
        let ghost tv = views_of(comment_times@);
        let mut k: usize = 0;
        while k < ticket.comments.len()
            invariant
                k <= ticket.comments@.len(),
                comment_times@.len() == ticket.comments@.len(),
                tv == views_of(comment_times@),
                views_of(parts@) + comment_lines_from(ticket.comments@, tv, k as int) == start
                    + comment_lines_from(ticket.comments@, tv, 0),
            decreases ticket.comments@.len() - k,
        {
            let c = &ticket.comments[k];
            let mut line = String::new();
            push_str(&mut line, "**@");
            push_str(&mut line, c.who.username.as_str());
            push_str(&mut line, "** at ");
            push_str(&mut line, comment_times[k].as_str());
            push_str(&mut line, ":\n");
            push_str(&mut line, c.content.as_str());
            let ghost before = views_of(parts@);
            let ghost lv = line@;
            parts.push(line);
            assert(views_of(parts@) =~= before.push(lv));
            assert(views_of(parts@) + comment_lines_from(ticket.comments@, tv, k + 1) =~= before
                + comment_lines_from(ticket.comments@, tv, k as int));
            k = k + 1;
        }
        assert(views_of(parts@) =~= views_of(parts@) + comment_lines_from(
            ticket.comments@,
            tv,
            k as int,
        ));
        assert(views_of(parts@) =~= block_start + comment_block(
            *ticket,
            views_of(comment_times@),
            opt_view(*compacted_time),
        ));
    } else {
        assert(views_of(parts@) =~= ticket_head_parts(*ticket, today@));
    }
    let ghost expected = user_message_parts(
        *ticket,
        today@,
        views_of(comment_times@),
        opt_view(*compacted_time),
    );
    assert(views_of(parts@) =~= expected);
    let r = join_strings(parts.as_slice(), "\n");
    proof {
        reveal_strlit("\n");
    }
    r
}

/// All comment times of the ticket, and the time of its compaction, have a
/// text in `chrono`'s calendar.
pub open spec fn times_formattable(t: Ticket) -> bool {
    &&& forall|k: int|
        0 <= k < t.comments@.len() ==> minute_text(
            #[trigger] t.comments@[k].at.secs,
            t.comments@[k].at.nanos,
        ) is Some
    &&& match t.comment_compaction {
        Some(cc) => minute_text(cc.compacted_through.secs, cc.compacted_through.nanos) is Some,
        None => true,
    }
}

/// The time texts of the comments of a ticket.
pub open spec fn comment_time_texts(t: Ticket) -> Seq<Seq<char>> {
    Seq::new(
        t.comments@.len(),
        |k: int| minute_text(t.comments@[k].at.secs, t.comments@[k].at.nanos)->0,
    )
}

/// The user message that shows a ticket, with its times written as
/// `%Y-%m-%d %H:%M` (see `user_message_with`); `None` where a time has no
/// text in `chrono`'s calendar.
pub fn build_user_message(ticket: &Ticket, today: &str) -> (r: Option<String>)
    ensures
        r is Some <==> times_formattable(*ticket),
        r matches Some(m) ==> m@ == joined_by(
            user_message_parts(
                *ticket,
                today@,
                comment_time_texts(*ticket),
                match ticket.comment_compaction {
                    Some(cc) => minute_text(cc.compacted_through.secs, cc.compacted_through.nanos),
                    None => None,
                },
            ),
            "\n"@,
        ),
{
    let mut times: Vec<String> = Vec::new();
    let mut k: usize = 0;
    while k < ticket.comments.len()
        invariant
            k <= ticket.comments@.len(),
            views_of(times@) == comment_time_texts(*ticket).subrange(0, k as int),
            forall|m: int|
                0 <= m < k ==> minute_text(
                    #[trigger] ticket.comments@[m].at.secs,
                    ticket.comments@[m].at.nanos,
                ) is Some,
        decreases ticket.comments@.len() - k,
    {
        match format_minute(ticket.comments[k].at) {
            Some(t) => {
                let ghost before = views_of(times@);
                let ghost tv = t@;
                times.push(t);
                assert(views_of(times@) =~= before.push(tv));
            },
            None => {
                return None;
            },
        }
        k = k + 1;
        assert(views_of(times@) =~= comment_time_texts(*ticket).subrange(0, k as int));
    }
    assert(comment_time_texts(*ticket).subrange(0, k as int) =~= comment_time_texts(*ticket));
    let compacted: Option<String> = match &ticket.comment_compaction {
        Some(cc) => match format_minute(cc.compacted_through) {
            Some(t) => Some(t),
            None => {
                return None;
            },
        },
        None => None,
    };
    Some(user_message_with(ticket, today, &times, &compacted))
}

/// The messages a ticket's main agent starts from (see
/// `build_system_prompt` and `build_user_message`); `None` where a time of
/// the ticket has no text.
pub fn build_context(
    ticket: &Ticket,
    main_template: &str,
    dispatcher_template: &str,
    context_repo: &ContextRepository,
    app_cfg: &AppConfig,
    skill_ctx: Option<&SkillContext>,
    subagents: &Vec<(String, String)>,
    agents_md: Option<&str>,
    today: &str,
) -> (r: Option<TicketContext>)
    ensures
        r is Some <==> times_formattable(*ticket),
        r matches Some(c) ==> {
            &&& c.system@ == joined_by(
                system_prompt_parts(
                    main_template@,
                    dispatcher_template@,
                    app_cfg.agent.name@,
                    context_repo.files_view(),
                    match skill_ctx {
                        Some(s) => Some(*s),
                        None => None,
                    },
                    pair_views(subagents@),
                    match agents_md {
                        Some(m) => Some(m@),
                        None => None,
                    },
                ),
                "\n"@,
            )
            &&& c.user@ == joined_by(
                user_message_parts(
                    *ticket,
                    today@,
                    comment_time_texts(*ticket),
                    match ticket.comment_compaction {
                        Some(cc) => minute_text(cc.compacted_through.secs, cc.compacted_through.nanos),
                        None => None,
                    },
                ),
                "\n"@,
            )
        },
{
    let user = match build_user_message(ticket, today) {
        Some(u) => u,
        None => {
            return None;
        },
    };
    let system = build_system_prompt(
        main_template,
        dispatcher_template,
        context_repo,
        app_cfg,
        skill_ctx,
        subagents,
        agents_md,
    );
    Some(TicketContext { system, user })
}

/// The messages a subagent starts from: its system prompt (see
/// `build_subagent_system_prompt`), and the ticket's user message followed by
/// its task; `None` where a time of the ticket has no text.
pub fn build_subagent_context(
    subagent_cfg: &SubagentConfig,
    ticket: &Ticket,
    task: &str,
    context_repo: &ContextRepository,
    skill_ctx: Option<&SkillContext>,
    today: &str,
) -> (r: Option<TicketContext>)
    ensures
        r is Some <==> times_formattable(*ticket),
        r matches Some(c) ==> {
            &&& c.system@ == joined_by(
                subagent_prompt_parts(
                    *subagent_cfg,
                    context_repo.files_view(),
                    match skill_ctx {
                        Some(s) => Some(*s),
                        None => None,
                    },
                ),
                "\n"@,
            )
            &&& c.user@ == joined_by(
                user_message_parts(
                    *ticket,
                    today@,
                    comment_time_texts(*ticket),
                    match ticket.comment_compaction {
                        Some(cc) => minute_text(cc.compacted_through.secs, cc.compacted_through.nanos),
                        None => None,
                    },
                ),
                "\n"@,
            ) + "\n\n## Your Task\n"@ + task@
        },
{
    let mut user = match build_user_message(ticket, today) {
        Some(u) => u,
        None => {
            return None;
        },
    };
    push_str(&mut user, "\n\n## Your Task\n");
    push_str(&mut user, task);
    let system = build_subagent_system_prompt(subagent_cfg, context_repo, skill_ctx);
    Some(TicketContext { system, user })
}

} // verus!
