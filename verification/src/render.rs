//! Text renderings of contexts, as the command line prints them.

use vstd::prelude::*;
use vstd::seq_lib::lemma_concat_associative;
use vstd::string::*;

use crate::ids::{ObjectId, did_key_text, hex_lower};
use crate::sorted_set::{SortedSet, ascending};
use crate::state::{CodeLearning, CodeLearningView, Context, ContextView, LearningsView};

verus! {

/// Calls `String::push`, which appends one character.
#[verifier::external_body]
fn push_char(s: &mut String, c: char)
    ensures
        final(s)@ == old(s)@.push(c),
{
    s.push(c)
}

/// The decimal digit for `d`, where `0 <= d < 10`.
pub open spec fn digit_char(d: nat) -> char {
    ((d + 48) as u32) as char
}

/// `n` written in decimal, without leading zeros.
pub open spec fn decimal(n: nat) -> Seq<char>
    decreases n,
{
    if n < 10 {
        seq![digit_char(n)]
    } else {
        decimal(n / 10) + seq![digit_char(n % 10)]
    }
}

/// Appends `n` written in decimal.
pub fn push_decimal(out: &mut String, n: u128)
    ensures
        final(out)@ == old(out)@ + decimal(n as nat),
    decreases n,
{
    if n >= 10 {
        push_decimal(out, n / 10);
    }
    let d: u8 = (n % 10) as u8;
    let c = (48u8 + d) as char;
    assert(c == digit_char((n % 10) as nat));
    push_char(out, c);
    assert(final(out)@ =~= old(out)@ + decimal(n as nat));
}

/// `n` written in decimal.
pub fn decimal_string(n: u128) -> (r: String)
    ensures
        r@ == decimal(n as nat),
{
    let mut out = String::new();
    push_decimal(&mut out, n);
    assert(out@ =~= decimal(n as nat));
    out
}

/// The first seven characters of an id written in hexadecimal, the short
/// form by which ids are listed.
pub fn short_id(id: &ObjectId) -> (r: String)
    ensures
        r@ == hex_lower(id@).take(7),
{
    let full = id.to_hex();
    proof {
        id.lemma_len();
    }
    let mut out = String::new();
    let mut n: usize = 0;
    for c in it: full.as_str().chars()
        invariant
            n == (if it.index() < 7 {
                it.index()
            } else {
                7
            }),
            it.seq() == full@,
            out@ == full@.take(n as int),
    {
        if n < 7 {
            push_char(&mut out, c);
            assert(out@ =~= full@.take(n + 1));
            n = n + 1;
        }
    }
    out
}

/// `body` under `heading`, followed by a blank line; nothing when `body` is
/// empty.
pub open spec fn text_section(heading: Seq<char>, body: Seq<char>) -> Seq<char> {
    if body.len() == 0 {
        Seq::empty()
    } else {
        heading + body + "\n\n"@
    }
}

/// Each item on a line of its own, after `prefix`.
pub open spec fn bullets(prefix: Seq<char>, items: Seq<Seq<char>>) -> Seq<char>
    decreases items.len(),
{
    if items.len() == 0 {
        Seq::empty()
    } else {
        bullets(prefix, items.drop_last()) + prefix + items.last() + "\n"@
    }
}

/// The items as a bulleted list under `heading`, followed by a blank line;
/// nothing when there are no items.
pub open spec fn list_section(heading: Seq<char>, prefix: Seq<char>, items: Seq<Seq<char>>) -> Seq<
    char,
> {
    if items.len() == 0 {
        Seq::empty()
    } else {
        heading + bullets(prefix, items) + "\n"@
    }
}

/// Where a code learning points: the path, then `:start` or `:start-end`
/// when it has a start line.
pub open spec fn location(c: CodeLearningView) -> Seq<char> {
    match (c.line, c.end_line) {
        (Some(start), Some(end)) => c.path + ":"@ + decimal(start as nat) + "-"@ + decimal(
            end as nat,
        ),
        (Some(start), None) => c.path + ":"@ + decimal(start as nat),
        _ => c.path,
    }
}

/// One line per code learning: its location in bold, then its finding.
pub open spec fn code_lines(code: Seq<CodeLearningView>) -> Seq<char>
    decreases code.len(),
{
    if code.len() == 0 {
        Seq::empty()
    } else {
        code_lines(code.drop_last()) + "- **"@ + location(code.last()) + "**: "@
            + code.last().finding + "\n"@
    }
}

/// The learnings section: repository learnings, then code learnings;
/// nothing when there are none.
pub open spec fn learnings_section(l: LearningsView) -> Seq<char> {
    if l.repo.len() == 0 && l.code.len() == 0 {
        Seq::empty()
    } else {
        "## Learnings\n\n"@ + list_section("### Repository\n"@, "- "@, l.repo) + (if l.code.len()
            == 0 {
            Seq::empty()
        } else {
            "### Code\n"@ + code_lines(l.code) + "\n"@
        })
    }
}

/// Ids written in hexadecimal.
pub open spec fn id_texts(ids: Seq<Seq<u8>>) -> Seq<Seq<char>> {
    ids.map_values(|b: Seq<u8>| hex_lower(b))
}

/// The detailed view of a context with the given id and author texts.
pub open spec fn show_text(c: ContextView, id: Seq<char>, author: Seq<char>) -> Seq<char> {
    "# "@ + c.title + "\n\nID: "@ + id + "\nAuthor: "@ + author + "\n\n"@ + text_section(
        "## Description\n\n"@,
        c.description,
    ) + text_section("## Approach\n\n"@, c.approach) + list_section(
        "## Constraints\n\n"@,
        "- "@,
        c.constraints,
    ) + learnings_section(c.learnings) + list_section("## Friction\n\n"@, "- "@, c.friction)
        + list_section("## Open Items\n\n"@, "- "@, c.open_items) + list_section(
        "## Files Touched\n\n"@,
        "- "@,
        ascending::<String>(c.files_touched),
    ) + list_section("## Linked Commits\n"@, "  - "@, ascending::<String>(c.related_commits))
        + list_section(
        "## Linked Issues\n"@,
        "  - "@,
        id_texts(ascending::<ObjectId>(c.related_issues)),
    ) + list_section(
        "## Linked Patches\n"@,
        "  - "@,
        id_texts(ascending::<ObjectId>(c.related_patches)),
    ) + list_section("## Linked Plans\n"@, "  - "@, id_texts(ascending::<ObjectId>(c.related_plans)))
}

/// One line of the context listing: the short id and title, then the number
/// of linked commits and of other links when there are any.
pub open spec fn list_entry_text(short: Seq<char>, title: Seq<char>, commits: nat, links: nat) -> Seq<
    char,
> {
    short + " "@ + title + (if commits > 0 || links > 0 {
        " ["@ + decimal(commits) + "c "@ + decimal(links) + "l]"@
    } else {
        Seq::empty()
    }) + "\n"@
}

/// The line after the context listing.
pub open spec fn list_summary_text(count: nat) -> Seq<char> {
    if count == 0 {
        "No contexts found.\n"@
    } else {
        "\n"@ + decimal(count) + " context(s)\n"@
    }
}

fn append_text_section(out: &mut String, heading: &str, body: &str)
    ensures
        final(out)@ == old(out)@ + text_section(heading@, body@),
{
    if !body.is_empty() {
        out.append(heading);
        out.append(body);
        out.append("\n\n");
        assert(final(out)@ =~= old(out)@ + text_section(heading@, body@));
    } else {
        assert(final(out)@ =~= old(out)@ + text_section(heading@, body@));
    }
}

fn append_bullets(out: &mut String, prefix: &str, items: &[String])
    ensures
        final(out)@ == old(out)@ + bullets(prefix@, items.deep_view()),
{
    let n = items.len();
    let ghost all = items.deep_view();
    let mut i: usize = 0;
    while i < n
        invariant
            n == items@.len(),
            all == items.deep_view(),
            0 <= i <= n,
            out@ == old(out)@ + bullets(prefix@, all.take(i as int)),
        decreases n - i,
    {
        out.append(prefix);
        out.append(items[i].as_str());
        out.append("\n");
        proof {
            assert(all.take(i + 1).drop_last() =~= all.take(i as int));
            assert(all[i as int] == items@[i as int]@);
        }
        i = i + 1;
        assert(out@ =~= old(out)@ + bullets(prefix@, all.take(i as int)));
    }
    assert(all.take(n as int) =~= all);
}

fn append_list_section(out: &mut String, heading: &str, prefix: &str, items: &[String])
    ensures
        final(out)@ == old(out)@ + list_section(heading@, prefix@, items.deep_view()),
{
    if items.len() > 0 {
        out.append(heading);
        append_bullets(out, prefix, items);
        out.append("\n");
        assert(final(out)@ =~= old(out)@ + list_section(heading@, prefix@, items.deep_view()));
    } else {
        assert(final(out)@ =~= old(out)@ + list_section(heading@, prefix@, items.deep_view()));
    }
}

fn append_string_set_section(out: &mut String, heading: &str, prefix: &str, set: &SortedSet<String>)
    ensures
        final(out)@ == old(out)@ + list_section(heading@, prefix@, ascending::<String>(set@)),
{
    let items = set.items();
    assert(items.deep_view() =~= items@.map_values(|k: String| k@));
    append_list_section(out, heading, prefix, items);
}

fn append_id_section(out: &mut String, heading: &str, prefix: &str, set: &SortedSet<ObjectId>)
    ensures
        final(out)@ == old(out)@ + list_section(
            heading@,
            prefix@,
            id_texts(ascending::<ObjectId>(set@)),
        ),
{
    let items = set.items();
    let ghost all = id_texts(items@.map_values(|k: ObjectId| k@));
    let n = items.len();
    if n == 0 {
        assert(final(out)@ =~= old(out)@ + list_section(
            heading@,
            prefix@,
            id_texts(ascending::<ObjectId>(set@)),
        ));
        return ;
    }
    out.append(heading);
    let ghost start = out@;
    let mut i: usize = 0;
    while i < n
        invariant
            n == items@.len(),
            all == id_texts(items@.map_values(|k: ObjectId| k@)),
            0 <= i <= n,
            out@ == start + bullets(prefix@, all.take(i as int)),
        decreases n - i,
    {
        out.append(prefix);
        let text = items[i].to_hex();
        out.append(text.as_str());
        out.append("\n");
        proof {
            assert(all.take(i + 1).drop_last() =~= all.take(i as int));
            assert(all[i as int] == hex_lower(items@[i as int]@));
        }
        i = i + 1;
        assert(out@ =~= start + bullets(prefix@, all.take(i as int)));
    }
    assert(all.take(n as int) =~= all);
    out.append("\n");
    assert(final(out)@ =~= old(out)@ + list_section(
        heading@,
        prefix@,
        id_texts(ascending::<ObjectId>(set@)),
    ));
}

/// Where a code learning points: the path, then `:start` or `:start-end`.
pub fn location_text(c: &CodeLearning) -> (r: String)
    ensures
        r@ == location(c@),
{
    let mut out = String::new();
    out.append(c.path.as_str());
    match (c.line, c.end_line) {
        (Some(start), Some(end)) => {
            out.append(":");
            push_decimal(&mut out, start as u128);
            out.append("-");
            push_decimal(&mut out, end as u128);
        },
        (Some(start), None) => {
            out.append(":");
            push_decimal(&mut out, start as u128);
        },
        _ => {},
    }
    assert(out@ =~= location(c@));
    out
}

fn append_code_lines(out: &mut String, code: &[CodeLearning])
    ensures
        final(out)@ == old(out)@ + code_lines(code@.map_values(|c: CodeLearning| c@)),
{
    let n = code.len();
    let ghost all = code@.map_values(|c: CodeLearning| c@);
    let mut i: usize = 0;
    while i < n
        invariant
            n == code@.len(),
            all == code@.map_values(|c: CodeLearning| c@),
            0 <= i <= n,
            out@ == old(out)@ + code_lines(all.take(i as int)),
        decreases n - i,
    {
        out.append("- **");
        let loc = location_text(&code[i]);
        out.append(loc.as_str());
        out.append("**: ");
        out.append(code[i].finding.as_str());
        out.append("\n");
        proof {
            assert(all.take(i + 1).drop_last() =~= all.take(i as int));
            assert(all[i as int] == code@[i as int]@);
        }
        i = i + 1;
        assert(out@ =~= old(out)@ + code_lines(all.take(i as int)));
    }
    assert(all.take(n as int) =~= all);
}

fn append_learnings(out: &mut String, c: &Context)
    ensures
        final(out)@ == old(out)@ + learnings_section(c@.learnings),
{
    let l = c.learnings();
    if l.repo.len() == 0 && l.code.len() == 0 {
        assert(final(out)@ =~= old(out)@ + learnings_section(c@.learnings));
        return ;
    }
    out.append("## Learnings\n\n");
    let repo = l.repo.as_slice();
    assert(repo.deep_view() =~= l.repo.deep_view());
    append_list_section(out, "### Repository\n", "- ", repo);
    if l.code.len() > 0 {
        out.append("### Code\n");
        append_code_lines(out, l.code.as_slice());
        out.append("\n");
    }
    assert(final(out)@ =~= old(out)@ + learnings_section(c@.learnings));
}

/// The detailed view of a context, given its id and its author as text.
pub fn render_show(c: &Context, id_text: &str, author_text: &str) -> (r: String)
    ensures
        r@ == show_text(c@, id_text@, author_text@),
{
    let mut out = String::new();
    out.append("# ");
    out.append(c.title());
    out.append("\n\nID: ");
    out.append(id_text);
    out.append("\nAuthor: ");
    out.append(author_text);
    out.append("\n\n");
    append_text_section(&mut out, "## Description\n\n", c.description());
    append_text_section(&mut out, "## Approach\n\n", c.approach());
    append_list_section(&mut out, "## Constraints\n\n", "- ", c.constraints());
    append_learnings(&mut out, c);
    append_list_section(&mut out, "## Friction\n\n", "- ", c.friction());
    append_list_section(&mut out, "## Open Items\n\n", "- ", c.open_items());
    append_string_set_section(&mut out, "## Files Touched\n\n", "- ", c.files_touched());
    append_string_set_section(&mut out, "## Linked Commits\n", "  - ", c.related_commits());
    append_id_section(&mut out, "## Linked Issues\n", "  - ", c.related_issues());
    append_id_section(&mut out, "## Linked Patches\n", "  - ", c.related_patches());
    append_id_section(&mut out, "## Linked Plans\n", "  - ", c.related_plans());
    assert(out@ =~= show_text(c@, id_text@, author_text@));
    out
}

/// The detailed view of the context with the given id.
pub fn show(c: &Context, id: &ObjectId) -> (r: String)
    ensures
        r@ == show_text(c@, hex_lower(id@), did_key_text(c@.author)),
{
    let id_text = id.to_hex();
    let author_text = c.author().id.to_did();
    render_show(c, id_text.as_str(), author_text.as_str())
}

/// One line of the context listing.
pub fn list_entry(id: &ObjectId, c: &Context) -> (r: String)
    ensures
        r@ == list_entry_text(
            hex_lower(id@).take(7),
            c@.title,
            c@.related_commits.len(),
            c@.related_issues.len() + c@.related_patches.len() + c@.related_plans.len(),
        ),
{
    let commits = c.related_commits().len();
    let links: u128 = c.related_issues().len() as u128 + c.related_patches().len() as u128
        + c.related_plans().len() as u128;
    let mut out = short_id(id);
    out.append(" ");
    out.append(c.title());
    if commits > 0 || links > 0 {
        out.append(" [");
        push_decimal(&mut out, commits as u128);
        out.append("c ");
        push_decimal(&mut out, links);
        out.append("l]");
    }
    out.append("\n");
    assert(out@ =~= list_entry_text(
        hex_lower(id@).take(7),
        c@.title,
        c@.related_commits.len(),
        c@.related_issues.len() + c@.related_patches.len() + c@.related_plans.len(),
    ));
    out
}

/// The line after the listing of `count` contexts.
pub fn list_summary(count: usize) -> (r: String)
    ensures
        r@ == list_summary_text(count as nat),
{
    if count == 0 {
        let mut out = String::new();
        out.append("No contexts found.\n");
        assert(out@ =~= list_summary_text(count as nat));
        out
    } else {
        let mut out = String::new();
        out.append("\n");
        push_decimal(&mut out, count as u128);
        out.append(" context(s)\n");
        assert(out@ =~= list_summary_text(count as nat));
        out
    }
}

/// `text` is `before`, then `mid`, then `after`.
pub open spec fn splits_at(text: Seq<char>, before: Seq<char>, mid: Seq<char>, after: Seq<char>) -> bool {
    text == before + mid + after
}

/// `text` begins with `prefix`.
pub open spec fn starts_with(text: Seq<char>, prefix: Seq<char>) -> bool {
    text.len() >= prefix.len() && text.subrange(0, prefix.len() as int) == prefix
}

/// `text` ends with `suffix`.
pub open spec fn ends_with(text: Seq<char>, suffix: Seq<char>) -> bool {
    text.len() >= suffix.len() && text.subrange(text.len() - suffix.len(), text.len() as int)
        == suffix
}

/// A text begins with any beginning of its first part.
proof fn lemma_starts_with_concat(a: Seq<char>, b: Seq<char>, h: Seq<char>)
    requires
        starts_with(a, h),
    ensures
        starts_with(a + b, h),
{
    assert((a + b).subrange(0, h.len() as int) =~= a.subrange(0, h.len() as int));
}

/// A text begins with its first part.
proof fn lemma_starts_with_first(a: Seq<char>, b: Seq<char>)
    ensures
        starts_with(a + b, a),
{
    assert((a + b).subrange(0, a.len() as int) =~= a);
}

/// A text ends with its last part.
proof fn lemma_ends_with_last(a: Seq<char>, b: Seq<char>)
    ensures
        ends_with(a + b, b),
{
    assert((a + b).subrange(a.len() as int, (a + b).len() as int) =~= b);
}

/// The header lines of the detailed view: the title as a heading, the id
/// and the author.
spec fn show_header(c: ContextView, id: Seq<char>, author: Seq<char>) -> Seq<char> {
    "# "@ + c.title + "\n\nID: "@ + id + "\nAuthor: "@ + author + "\n\n"@
}

/// The header begins with the title as a heading.
proof fn lemma_header_starts_with_title(c: ContextView, id: Seq<char>, author: Seq<char>)
    ensures
        starts_with(show_header(c, id, author), "# "@ + c.title),
{
    let h = "# "@ + c.title;
    lemma_starts_with_first(h, "\n\nID: "@);
    lemma_starts_with_concat(h + "\n\nID: "@, id, h);
    lemma_starts_with_concat(h + "\n\nID: "@ + id, "\nAuthor: "@, h);
    lemma_starts_with_concat(h + "\n\nID: "@ + id + "\nAuthor: "@, author, h);
    lemma_starts_with_concat(h + "\n\nID: "@ + id + "\nAuthor: "@ + author, "\n\n"@, h);
}

/// The sections of the detailed view after the approach, from the
/// constraints to the linked plans.
spec fn sections_after_approach(c: ContextView) -> Seq<char> {
    list_section("## Constraints\n\n"@, "- "@, c.constraints) + learnings_section(c.learnings)
        + list_section("## Friction\n\n"@, "- "@, c.friction) + list_section(
        "## Open Items\n\n"@,
        "- "@,
        c.open_items,
    ) + list_section("## Files Touched\n\n"@, "- "@, ascending::<String>(c.files_touched))
        + list_section("## Linked Commits\n"@, "  - "@, ascending::<String>(c.related_commits))
        + list_section(
        "## Linked Issues\n"@,
        "  - "@,
        id_texts(ascending::<ObjectId>(c.related_issues)),
    ) + list_section(
        "## Linked Patches\n"@,
        "  - "@,
        id_texts(ascending::<ObjectId>(c.related_patches)),
    ) + list_section("## Linked Plans\n"@, "  - "@, id_texts(ascending::<ObjectId>(c.related_plans)))
}

/// The detailed view is its header, the description section, the approach
/// section and the sections after them.
proof fn lemma_show_parts(c: ContextView, id: Seq<char>, author: Seq<char>)
    ensures
        show_text(c, id, author) == show_header(c, id, author) + text_section(
            "## Description\n\n"@,
            c.description,
        ) + text_section("## Approach\n\n"@, c.approach) + sections_after_approach(c),
{
    let p = show_header(c, id, author) + text_section("## Description\n\n"@, c.description)
        + text_section("## Approach\n\n"@, c.approach);
    let b0 = list_section("## Constraints\n\n"@, "- "@, c.constraints);
    let b1 = learnings_section(c.learnings);
    let b2 = list_section("## Friction\n\n"@, "- "@, c.friction);
    let b3 = list_section("## Open Items\n\n"@, "- "@, c.open_items);
    let b4 = list_section("## Files Touched\n\n"@, "- "@, ascending::<String>(c.files_touched));
    let b5 = list_section("## Linked Commits\n"@, "  - "@, ascending::<String>(c.related_commits));
    let b6 = list_section(
        "## Linked Issues\n"@,
        "  - "@,
        id_texts(ascending::<ObjectId>(c.related_issues)),
    );
    let b7 = list_section(
        "## Linked Patches\n"@,
        "  - "@,
        id_texts(ascending::<ObjectId>(c.related_patches)),
    );
    let b8 = list_section("## Linked Plans\n"@, "  - "@, id_texts(ascending::<ObjectId>(c.related_plans)));
    lemma_concat_associative(p, b0, b1);
    lemma_concat_associative(p, b0 + b1, b2);
    lemma_concat_associative(p, b0 + b1 + b2, b3);
    lemma_concat_associative(p, b0 + b1 + b2 + b3, b4);
    lemma_concat_associative(p, b0 + b1 + b2 + b3 + b4, b5);
    lemma_concat_associative(p, b0 + b1 + b2 + b3 + b4 + b5, b6);
    lemma_concat_associative(p, b0 + b1 + b2 + b3 + b4 + b5 + b6, b7);
    lemma_concat_associative(p, b0 + b1 + b2 + b3 + b4 + b5 + b6 + b7, b8);
}

/// The detailed view of a context begins with its title as a heading.
pub proof fn lemma_show_starts_with_title(c: ContextView, id: Seq<char>, author: Seq<char>)
    ensures
        starts_with(show_text(c, id, author), "# "@ + c.title),
{
    lemma_show_parts(c, id, author);
    lemma_header_starts_with_title(c, id, author);
    let h = "# "@ + c.title;
    let hd = show_header(c, id, author);
    let d = text_section("## Description\n\n"@, c.description);
    let a = text_section("## Approach\n\n"@, c.approach);
    lemma_starts_with_concat(hd, d, h);
    lemma_starts_with_concat(hd + d, a, h);
    lemma_starts_with_concat(hd + d + a, sections_after_approach(c), h);
}

/// A non-empty description is shown under its heading, right after the
/// header lines, which begin with the title, and right before the approach
/// (when there is one).
pub proof fn lemma_show_has_description(c: ContextView, id: Seq<char>, author: Seq<char>)
    requires
        c.description.len() > 0,
    ensures
        exists|before: Seq<char>, after: Seq<char>|
            #[trigger] splits_at(
                show_text(c, id, author),
                before,
                "## Description\n\n"@ + c.description + "\n\n"@,
                after,
            ) && starts_with(before, "# "@ + c.title) && (c.approach.len() > 0 ==> starts_with(
                after,
                "## Approach\n\n"@,
            )),
{
    lemma_show_parts(c, id, author);
    lemma_header_starts_with_title(c, id, author);
    let hd = show_header(c, id, author);
    let d = "## Description\n\n"@ + c.description + "\n\n"@;
    let a = text_section("## Approach\n\n"@, c.approach);
    let rest = sections_after_approach(c);
    lemma_concat_associative(hd + d, a, rest);
    assert(splits_at(show_text(c, id, author), hd, d, a + rest));
    if c.approach.len() > 0 {
        let k = "## Approach\n\n"@;
        lemma_starts_with_first(k, c.approach);
        lemma_starts_with_concat(k + c.approach, "\n\n"@, k);
        lemma_starts_with_concat(a, rest, k);
    }
}

/// A non-empty approach is shown under its heading, after the header lines,
/// which begin with the title, right after the description (when there is
/// one) and right before the constraints (when there are any).
pub proof fn lemma_show_has_approach(c: ContextView, id: Seq<char>, author: Seq<char>)
    requires
        c.approach.len() > 0,
    ensures
        exists|before: Seq<char>, after: Seq<char>|
            #[trigger] splits_at(
                show_text(c, id, author),
                before,
                "## Approach\n\n"@ + c.approach + "\n\n"@,
                after,
            ) && starts_with(before, "# "@ + c.title) && (c.description.len() > 0 ==> ends_with(
                before,
                "## Description\n\n"@ + c.description + "\n\n"@,
            )) && (c.constraints.len() > 0 ==> starts_with(after, "## Constraints\n\n"@)),
{
    lemma_show_parts(c, id, author);
    lemma_header_starts_with_title(c, id, author);
    let h = "# "@ + c.title;
    let hd = show_header(c, id, author);
    let d = text_section("## Description\n\n"@, c.description);
    let a = "## Approach\n\n"@ + c.approach + "\n\n"@;
    let rest = sections_after_approach(c);
    assert(splits_at(show_text(c, id, author), hd + d, a, rest));
    lemma_starts_with_concat(hd, d, h);
    lemma_ends_with_last(hd, d);
    if c.constraints.len() > 0 {
        let k = "## Constraints\n\n"@;
        let items = c.constraints;
        lemma_starts_with_first(k, bullets("- "@, items));
        lemma_starts_with_concat(k + bullets("- "@, items), "\n"@, k);
        let b0 = list_section(k, "- "@, items);
        let b1 = learnings_section(c.learnings);
        let b2 = list_section("## Friction\n\n"@, "- "@, c.friction);
        let b3 = list_section("## Open Items\n\n"@, "- "@, c.open_items);
        let b4 = list_section("## Files Touched\n\n"@, "- "@, ascending::<String>(c.files_touched));
        let b5 = list_section("## Linked Commits\n"@, "  - "@, ascending::<String>(c.related_commits));
        let b6 = list_section(
            "## Linked Issues\n"@,
            "  - "@,
            id_texts(ascending::<ObjectId>(c.related_issues)),
        );
        let b7 = list_section(
            "## Linked Patches\n"@,
            "  - "@,
            id_texts(ascending::<ObjectId>(c.related_patches)),
        );
        let b8 = list_section("## Linked Plans\n"@, "  - "@, id_texts(ascending::<ObjectId>(c.related_plans)));
        lemma_starts_with_concat(b0, b1, k);
        lemma_starts_with_concat(b0 + b1, b2, k);
        lemma_starts_with_concat(b0 + b1 + b2, b3, k);
        lemma_starts_with_concat(b0 + b1 + b2 + b3, b4, k);
        lemma_starts_with_concat(b0 + b1 + b2 + b3 + b4, b5, k);
        lemma_starts_with_concat(b0 + b1 + b2 + b3 + b4 + b5, b6, k);
        lemma_starts_with_concat(b0 + b1 + b2 + b3 + b4 + b5 + b6, b7, k);
        lemma_starts_with_concat(b0 + b1 + b2 + b3 + b4 + b5 + b6 + b7, b8, k);
    }
}

/// A listed context shows its short id and title and, when it has links, in
/// brackets first the number of its linked commits, marked `c`, and then the
/// number of its other links (issues, patches and plans), marked `l`.
pub proof fn lemma_list_entry_counts(short: Seq<char>, title: Seq<char>, commits: nat, links: nat)
    ensures
        commits > 0 || links > 0 ==> list_entry_text(short, title, commits, links) == short + " "@
            + title + " ["@ + decimal(commits) + "c "@ + decimal(links) + "l]"@ + "\n"@,
        commits == 0 && links == 0 ==> list_entry_text(short, title, commits, links) == short
            + " "@ + title + "\n"@,
{
    if commits > 0 || links > 0 {
        assert(list_entry_text(short, title, commits, links) =~= short + " "@ + title + " ["@
            + decimal(commits) + "c "@ + decimal(links) + "l]"@ + "\n"@);
    } else {
        assert(list_entry_text(short, title, commits, links) =~= short + " "@ + title + "\n"@);
    }
}

} // verus!
