//! Mermaid diagrams in notes: the source clean-up the renderer needs, the
//! preview's colour theme, and the call into the renderer.
use vstd::prelude::*;
use crate::text::{chars_of, pieces_fold, push_all, push_char, string_of, text_lines, without_cr};

verus! {

/// `lines` joined with `\n`.
pub open spec fn joined_lines(lines: Seq<Seq<char>>) -> Seq<char>
    decreases lines.len(),
{
    if lines.len() == 0 {
        Seq::empty()
    } else if lines.len() == 1 {
        lines[0]
    } else {
        joined_lines(lines.drop_last()).push('\n') + lines.last()
    }
}

/// An ASCII hexadecimal digit.
pub open spec fn is_hex_digit(c: char) -> bool {
    ('0' <= c && c <= '9') || ('a' <= c && c <= 'f') || ('A' <= c && c <= 'F')
}

/// An ASCII letter or digit.
pub open spec fn is_ascii_alphanumeric(c: char) -> bool {
    ('0' <= c && c <= '9') || ('a' <= c && c <= 'z') || ('A' <= c && c <= 'Z')
}

/// How many hexadecimal digits follow one another from index `i`.
pub open spec fn hex_run(s: Seq<char>, i: int) -> nat
    decreases s.len() - i,
{
    if i < 0 || i >= s.len() || !is_hex_digit(s[i]) {
        0
    } else {
        1 + hex_run(s, i + 1)
    }
}

/// A digit count that a CSS colour can have.
pub open spec fn is_color_length(n: nat) -> bool {
    n == 3 || n == 4 || n == 6 || n == 8
}

/// The `#` at index `h` of `s` starts a hexadecimal colour: 3, 4, 6 or 8
/// hexadecimal digits follow it, and no letter or digit follows them.
pub open spec fn hex_color_at(s: Seq<char>, h: int) -> bool {
    let n = hex_run(s, h + 1);
    is_color_length(n) && (h + 1 + n >= s.len() || !is_ascii_alphanumeric(s[h + 1 + n]))
}

/// The `#` at index `h` of `s` is kept: it starts a colour (`strict`), or
/// a colour's count of hexadecimal digits follows it (not `strict`).
pub open spec fn hash_kept(s: Seq<char>, h: int, strict: bool) -> bool {
    if strict {
        hex_color_at(s, h)
    } else {
        is_color_length(hex_run(s, h + 1))
    }
}

/// The first `k` characters of the text after a line's indentation, with
/// every `#` that is not kept written as `Number` (Mermaid reads `#` as the
/// start of an entity).
pub open spec fn escaped_hashes(rest: Seq<char>, k: int, strict: bool) -> Seq<char>
    decreases k,
{
    if k <= 0 || k > rest.len() {
        Seq::empty()
    } else {
        escaped_hashes(rest, k - 1, strict) + if rest[k - 1] != '#' {
            seq![rest[k - 1]]
        } else if hash_kept(rest, k - 1, strict) {
            seq!['#']
        } else {
            seq!['N', 'u', 'm', 'b', 'e', 'r']
        }
    }
}

/// How many spaces and tabs a line begins with.
pub open spec fn indent_len(line: Seq<char>, i: int) -> nat
    decreases line.len() - i,
{
    if i < 0 || i >= line.len() || (line[i] != ' ' && line[i] != '\t') {
        0
    } else {
        1 + indent_len(line, i + 1)
    }
}

/// The first `k` characters of an indentation, each tab written as two spaces.
pub open spec fn spaced_indent(indent: Seq<char>, k: int) -> Seq<char>
    decreases k,
{
    if k <= 0 || k > indent.len() {
        Seq::empty()
    } else {
        spaced_indent(indent, k - 1) + if indent[k - 1] == '\t' {
            seq![' ', ' ']
        } else {
            seq![indent[k - 1]]
        }
    }
}

/// A line of Mermaid source as the renderer needs it: its indentation with
/// tabs as two spaces, and its `#`s that are not kept as `Number`.
pub open spec fn mermaid_line(line: Seq<char>, strict: bool) -> Seq<char> {
    let n = indent_len(line, 0) as int;
    let rest = line.skip(n);
    spaced_indent(line.take(n), n) + escaped_hashes(rest, rest.len() as int, strict)
}

/// Mermaid source as the renderer needs it, line by line.
pub open spec fn normalized_mermaid(source: Seq<char>, strict: bool) -> Seq<char> {
    joined_lines(text_lines(source).map_values(|l: Seq<char>| mermaid_line(l, strict)))
}

proof fn lemma_hex_run_bound(s: Seq<char>, i: int)
    requires
        0 <= i,
    ensures
        i + hex_run(s, i) <= s.len() || hex_run(s, i) == 0,
        forall|k: int| i <= k < i + hex_run(s, i) ==> is_hex_digit(#[trigger] s[k]),
        i + hex_run(s, i) < s.len() ==> !is_hex_digit(s[i + hex_run(s, i)]),
    decreases s.len() - i,
{
    if i < s.len() && is_hex_digit(s[i]) {
        lemma_hex_run_bound(s, i + 1);
    }
}

proof fn lemma_indent_len_bound(line: Seq<char>, i: int)
    requires
        0 <= i <= line.len(),
    ensures
        i + indent_len(line, i) <= line.len(),
        forall|k: int| i <= k < i + indent_len(line, i) ==> (#[trigger] line[k] == ' ' || line[k] == '\t'),
    decreases line.len() - i,
{
    if i < line.len() && (line[i] == ' ' || line[i] == '\t') {
        lemma_indent_len_bound(line, i + 1);
    }
}

fn hex_digit(c: char) -> (r: bool)
    ensures
        r == is_hex_digit(c),
{
    ('0' <= c && c <= '9') || ('a' <= c && c <= 'f') || ('A' <= c && c <= 'F')
}

/// Whether the `#` at `hash_index` of `line` starts a hexadecimal colour.
pub fn is_hex_color(line: &[char], hash_index: usize) -> (r: bool)
    requires
        hash_index < line@.len(),
    ensures
        r == hex_color_at(line@, hash_index as int),
{
    let len = line.len();
    let start = hash_index + 1;
    let mut end = start;
    while end < line.len() && hex_digit(line[end])
        invariant
            start <= end <= line@.len(),
            hex_run(line@, start as int) == (end - start) + hex_run(line@, end as int),
        decreases line@.len() - end,
    {
        end = end + 1;
    }
    let n = end - start;
    if !(n == 3 || n == 4 || n == 6 || n == 8) {
        return false;
    }
    if end >= line.len() {
        return true;
    }
    let c = line[end];
    !(('0' <= c && c <= '9') || ('a' <= c && c <= 'z') || ('A' <= c && c <= 'Z'))
}

/// How many hexadecimal digits follow index `i`.
fn hex_run_at(s: &[char], i: usize) -> (r: usize)
    requires
        i <= s@.len(),
    ensures
        r == hex_run(s@, i as int),
{
    let mut end = i;
    while end < s.len() && hex_digit(s[end])
        invariant
            i <= end <= s@.len(),
            hex_run(s@, i as int) == (end - i) + hex_run(s@, end as int),
        decreases s@.len() - end,
    {
        end = end + 1;
    }
    end - i
}

/// One line of Mermaid source as the renderer needs it.
fn normalize_mermaid_line(line: &[char], strict: bool) -> (r: Vec<char>)
    ensures
        r@ == mermaid_line(line@, strict),
{
    let mut n: usize = 0;
    while n < line.len() && (line[n] == ' ' || line[n] == '\t')
        invariant
            n <= line@.len(),
            indent_len(line@, 0) == n + indent_len(line@, n as int),
        decreases line@.len() - n,
    {
        n = n + 1;
    }
    let ghost indent = line@.take(n as int);
    let mut out: Vec<char> = Vec::new();
    let mut i: usize = 0;
    while i < n
        invariant
            i <= n <= line@.len(),
            indent == line@.take(n as int),
            out@ == spaced_indent(indent, i as int),
        decreases n - i,
    {
        if line[i] == '\t' {
            out.push(' ');
            out.push(' ');
        } else {
            out.push(line[i]);
        }
        proof {
            assert(out@ =~= spaced_indent(indent, i + 1));
        }
        i = i + 1;
    }
    let rest = crate::text::copy_range(line, n, line.len());
    proof {
        assert(rest@ =~= line@.skip(n as int));
    }
    let ghost head = out@;
    let mut j: usize = 0;
    while j < rest.len()
        invariant
            j <= rest@.len(),
            out@ == head + escaped_hashes(rest@, j as int, strict),
        decreases rest@.len() - j,
    {
        let c = rest[j];
        if c != '#' {
            out.push(c);
        } else if (strict && is_hex_color(rest.as_slice(), j)) || (!strict && {
            let n = hex_run_at(rest.as_slice(), j + 1);
            n == 3 || n == 4 || n == 6 || n == 8
        }) {
            out.push('#');
        } else {
            out.push('N');
            out.push('u');
            out.push('m');
            out.push('b');
            out.push('e');
            out.push('r');
        }
        proof {
            assert(out@ =~= head + escaped_hashes(rest@, j + 1, strict));
        }
        j = j + 1;
    }
    out
}

/// Mermaid source as the renderer needs it: each line's indentation with
/// tabs as two spaces, and each `#` that starts no hexadecimal colour
/// written as `Number`; lines are joined with `\n`.
pub fn normalize_mermaid_source(source: &str) -> (r: String)
    ensures
        r@ == normalized_mermaid(source@, true),
{
    normalize_mermaid_text(source, true)
}

/// Mermaid source as the diagram command hands it to the renderer: like
/// `normalize_mermaid_source`, but a `#` is kept whenever 3, 4, 6 or 8
/// hexadecimal digits follow it, whatever comes after them.
pub fn normalize_mermaid_for_render(source: &str) -> (r: String)
    ensures
        r@ == normalized_mermaid(source@, false),
{
    normalize_mermaid_text(source, false)
}

fn normalize_mermaid_text(source: &str, strict: bool) -> (r: String)
    ensures
        r@ == normalized_mermaid(source@, strict),
{
    let v = chars_of(source);
    let mut out = String::new();
    let mut cur: Vec<char> = Vec::new();
    let mut count: usize = 0;
    let mut i: usize = 0;
    while i < v.len()
        invariant
            i <= v@.len(),
            v@ == source@,
            cur@ == pieces_fold(v@.take(i as int), '\n').1,
            count <= i,
            count == pieces_fold(v@.take(i as int), '\n').0.len(),
            out@ == joined_lines(
                pieces_fold(v@.take(i as int), '\n').0.map_values(|l: Seq<char>| without_cr(l)).map_values(
                    |l: Seq<char>| mermaid_line(l, strict),
                ),
            ),
        decreases v@.len() - i,
    {
        let ghost before = pieces_fold(v@.take(i as int), '\n');
        proof {
            assert(v@.take(i + 1).drop_last() =~= v@.take(i as int));
        }
        if v[i] == '\n' {
            let mut line = cur;
            if line.len() > 0 && line[line.len() - 1] == '\r' {
                line.pop();
            }
            proof {
                assert(line@ =~= without_cr(before.1));
            }
            if count > 0 {
                push_char(&mut out, '\n');
            }
            let normalized = normalize_mermaid_line(line.as_slice(), strict);
            push_all(&mut out, normalized.as_slice());
            proof {
                let lines = before.0.push(before.1);
                let mapped = lines.map_values(|l: Seq<char>| without_cr(l)).map_values(
                    |l: Seq<char>| mermaid_line(l, strict),
                );
                assert(mapped.drop_last() =~= before.0.map_values(|l: Seq<char>| without_cr(l)).map_values(
                    |l: Seq<char>| mermaid_line(l, strict),
                ));
                assert(out@ =~= joined_lines(mapped));
            }
            cur = Vec::new();
            count = count + 1;
            proof {
                assert(cur@ =~= Seq::<char>::empty());
            }
        } else {
            cur.push(v[i]);
        }
        i = i + 1;
    }
    proof {
        assert(v@.take(v@.len() as int) =~= v@);
    }
    if cur.len() > 0 {
        if count > 0 {
            push_char(&mut out, '\n');
        }
        let normalized = normalize_mermaid_line(cur.as_slice(), strict);
        push_all(&mut out, normalized.as_slice());
        proof {
            let (done, last) = pieces_fold(v@, '\n');
            let full = done.map_values(|l: Seq<char>| without_cr(l));
            let mapped = full.push(last).map_values(|l: Seq<char>| mermaid_line(l, strict));
            assert(mapped.drop_last() =~= full.map_values(|l: Seq<char>| mermaid_line(l, strict)));
            assert(done.map_values(|l: Seq<char>| without_cr(l)).map_values(|l: Seq<char>| mermaid_line(l, strict))
                =~= full.map_values(|l: Seq<char>| mermaid_line(l, strict)));
            assert(out@ =~= joined_lines(mapped));
        }
    } else {
        proof {
            let (done, last) = pieces_fold(v@, '\n');
            let full = done.map_values(|l: Seq<char>| without_cr(l));
            assert(done.map_values(|l: Seq<char>| without_cr(l)).map_values(|l: Seq<char>| mermaid_line(l, strict))
                =~= full.map_values(|l: Seq<char>| mermaid_line(l, strict)));
        }
    }
    out
}

/// The preview's dark Mermaid theme, as Mermaid site configuration in JSON.
pub open spec fn dark_theme_json() -> Seq<char> {
    "{\"theme\":\"base\",\"themeVariables\":{\"background\":\"#1c1c1e\",\"mainBkg\":\"#252b35\",\"primaryColor\":\"#273449\",\"primaryTextColor\":\"#f2f2f7\",\"primaryBorderColor\":\"#72b7ff\",\"lineColor\":\"#93c5fd\",\"secondaryColor\":\"#334155\",\"tertiaryColor\":\"#1f2937\",\"nodeTextColor\":\"#f2f2f7\",\"textColor\":\"#f2f2f7\",\"edgeLabelBackground\":\"#1c1c1e\",\"clusterBkg\":\"#202938\",\"clusterBorder\":\"#64748b\",\"titleColor\":\"#f8fafc\",\"noteBkgColor\":\"#3a321f\",\"noteTextColor\":\"#fef3c7\",\"noteBorderColor\":\"#fbbf24\"},\"themeCSS\":\"text, .label, .nodeLabel { font-family: -apple-system, BlinkMacSystemFont, sans-serif; }\"}"@
}

/// The preview's light Mermaid theme, as Mermaid site configuration in JSON.
pub open spec fn light_theme_json() -> Seq<char> {
    "{\"theme\":\"base\",\"themeVariables\":{\"background\":\"#ffffff\",\"mainBkg\":\"#f8fafc\",\"primaryColor\":\"#dbeafe\",\"primaryTextColor\":\"#111827\",\"primaryBorderColor\":\"#2563eb\",\"lineColor\":\"#2563eb\",\"textColor\":\"#111827\",\"edgeLabelBackground\":\"#ffffff\",\"clusterBkg\":\"#eff6ff\",\"clusterBorder\":\"#64748b\",\"titleColor\":\"#111827\",\"noteBkgColor\":\"#fef3c7\",\"noteTextColor\":\"#111827\",\"noteBorderColor\":\"#d97706\"},\"themeCSS\":\"text, .label, .nodeLabel { font-family: -apple-system, BlinkMacSystemFont, sans-serif; }\"}"@
}

/// The Mermaid site configuration of the preview's dark or light theme, in
/// JSON: the base theme with the preview's colours and label font.
pub fn mermaid_theme_json(dark: bool) -> (r: String)
    ensures
        r@ == if dark {
            dark_theme_json()
        } else {
            light_theme_json()
        },
{
    if dark {
        crate::text::owned("{\"theme\":\"base\",\"themeVariables\":{\"background\":\"#1c1c1e\",\"mainBkg\":\"#252b35\",\"primaryColor\":\"#273449\",\"primaryTextColor\":\"#f2f2f7\",\"primaryBorderColor\":\"#72b7ff\",\"lineColor\":\"#93c5fd\",\"secondaryColor\":\"#334155\",\"tertiaryColor\":\"#1f2937\",\"nodeTextColor\":\"#f2f2f7\",\"textColor\":\"#f2f2f7\",\"edgeLabelBackground\":\"#1c1c1e\",\"clusterBkg\":\"#202938\",\"clusterBorder\":\"#64748b\",\"titleColor\":\"#f8fafc\",\"noteBkgColor\":\"#3a321f\",\"noteTextColor\":\"#fef3c7\",\"noteBorderColor\":\"#fbbf24\"},\"themeCSS\":\"text, .label, .nodeLabel { font-family: -apple-system, BlinkMacSystemFont, sans-serif; }\"}")
    } else {
        crate::text::owned("{\"theme\":\"base\",\"themeVariables\":{\"background\":\"#ffffff\",\"mainBkg\":\"#f8fafc\",\"primaryColor\":\"#dbeafe\",\"primaryTextColor\":\"#111827\",\"primaryBorderColor\":\"#2563eb\",\"lineColor\":\"#2563eb\",\"textColor\":\"#111827\",\"edgeLabelBackground\":\"#ffffff\",\"clusterBkg\":\"#eff6ff\",\"clusterBorder\":\"#64748b\",\"titleColor\":\"#111827\",\"noteBkgColor\":\"#fef3c7\",\"noteTextColor\":\"#111827\",\"noteBorderColor\":\"#d97706\"},\"themeCSS\":\"text, .label, .nodeLabel { font-family: -apple-system, BlinkMacSystemFont, sans-serif; }\"}")
    }
}

/// What `merman` answers to an SVG render request for `source` under the
/// site configuration written as JSON in `site_config_json`, with marker ids
/// made from `diagram_id` and its resvg-safe pipeline: the SVG text when it
/// drew a diagram, nothing when the source holds none, or its error message.
/// `merman` documents its default build as rendering deterministically,
/// without system adapters (clock, time zone, fonts), and the request sets no
/// deadline, so the answer depends on these three texts alone.
pub uninterp spec fn mermaid_rendering(source: Seq<char>, site_config_json: Seq<char>, diagram_id: Seq<char>) -> Result<Option<Seq<char>>, Seq<char>>;

/// A renderer's reply, its texts taken by their views.
pub open spec fn reply_view(reply: Result<Option<String>, String>) -> Result<Option<Seq<char>>, Seq<char>> {
    match reply {
        Ok(Some(svg)) => Ok(Some(svg@)),
        Ok(None) => Ok(None),
        Err(message) => Err(message@),
    }
}

/// A render outcome, its texts taken by their views.
pub open spec fn outcome_view(outcome: Result<String, String>) -> Result<Seq<char>, Seq<char>> {
    match outcome {
        Ok(svg) => Ok(svg@),
        Err(message) => Err(message@),
    }
}

/// The outcome of a render request for the renderer's reply: the SVG, the
/// error `missing` when the source held no diagram, or the renderer's own
/// message.
pub open spec fn render_outcome(reply: Result<Option<Seq<char>>, Seq<char>>, missing: Seq<char>) -> Result<Seq<char>, Seq<char>> {
    match reply {
        Ok(Some(svg)) => Ok(svg),
        Ok(None) => Err(missing),
        Err(message) => Err(message),
    }
}

/// The site configuration JSON of the dark or light preview theme.
pub open spec fn preview_theme_json(dark: bool) -> Seq<char> {
    if dark {
        dark_theme_json()
    } else {
        light_theme_json()
    }
}

/// The dark Mermaid theme of the diagram command, as site configuration in
/// JSON: the preview's dark colours, with the renderer's own label font.
pub open spec fn command_theme_json() -> Seq<char> {
    "{\"theme\":\"base\",\"themeVariables\":{\"background\":\"#1c1c1e\",\"mainBkg\":\"#252b35\",\"primaryColor\":\"#273449\",\"primaryTextColor\":\"#f2f2f7\",\"primaryBorderColor\":\"#72b7ff\",\"lineColor\":\"#93c5fd\",\"secondaryColor\":\"#334155\",\"tertiaryColor\":\"#1f2937\",\"nodeTextColor\":\"#f2f2f7\",\"textColor\":\"#f2f2f7\",\"edgeLabelBackground\":\"#1c1c1e\",\"clusterBkg\":\"#202938\",\"clusterBorder\":\"#64748b\",\"titleColor\":\"#f8fafc\",\"noteBkgColor\":\"#3a321f\",\"noteTextColor\":\"#fef3c7\",\"noteBorderColor\":\"#fbbf24\"}}"@
}

/// The diagram id of Mermaid block `index` of preview `generation`:
/// `markerup-<generation>-<index>`.
pub open spec fn preview_diagram_id(generation: u64, index: nat) -> Seq<char> {
    "markerup-"@ + crate::preview::decimal_text(generation as nat) + "-"@ + crate::preview::decimal_text(index)
}

/// `merman`'s `Renderer::render` of an SVG request for `source` with the
/// site configuration that `theme_json` holds (read with
/// `serde_json::from_str` and `MermaidConfig::from_value`), `diagram_id` as
/// the diagram id of its render options, the resvg-safe pipeline and an
/// `OperationControl` without deadline. Trusted to answer
/// `mermaid_rendering` of the three texts: `Ok(None)` when the source holds no
/// diagram, `Err` with the renderer's message when it fails.
#[verifier::external_body]
fn render_svg(source: &str, theme_json: &str, diagram_id: &str) -> (r: Result<Option<String>, String>)
    ensures
        reply_view(r) == mermaid_rendering(source@, theme_json@, diagram_id@),
{
    let theme = serde_json::from_str(theme_json).unwrap_or_default();
    let engine = merman::Engine::new().with_site_config(merman::MermaidConfig::from_value(theme));
    let mut svg_request = merman::SvgRequest::default();
    svg_request.options.diagram_id = Some(diagram_id.to_string());
    svg_request.pipeline = Some(merman::svg::SvgPipeline::resvg_safe());
    let request = merman::RenderRequest::svg(source, merman::OperationControl::new(), svg_request);
    match merman::Renderer::new().with_engine(engine).render(request) {
        Ok(merman::RenderOutput::Svg(svg)) => Ok(svg.map(|output| output.svg().to_string())),
        Ok(_) => Ok(None),
        Err(error) => Err(error.to_string()),
    }
}

/// Renders a Mermaid diagram of a note to SVG for the diagram command: the
/// source after `normalize_mermaid_for_render`, the command's dark theme and
/// the diagram id `markerup-preview`; an error when the source holds no
/// diagram or the renderer fails.
pub fn render_mermaid_svg(source: &str) -> (r: Result<String, String>)
    ensures
        outcome_view(r) == render_outcome(
            mermaid_rendering(normalized_mermaid(source@, false), command_theme_json(), "markerup-preview"@),
            "No Mermaid diagram found"@,
        ),
{
    let normalized = normalize_mermaid_for_render(source);
    let theme = crate::text::owned("{\"theme\":\"base\",\"themeVariables\":{\"background\":\"#1c1c1e\",\"mainBkg\":\"#252b35\",\"primaryColor\":\"#273449\",\"primaryTextColor\":\"#f2f2f7\",\"primaryBorderColor\":\"#72b7ff\",\"lineColor\":\"#93c5fd\",\"secondaryColor\":\"#334155\",\"tertiaryColor\":\"#1f2937\",\"nodeTextColor\":\"#f2f2f7\",\"textColor\":\"#f2f2f7\",\"edgeLabelBackground\":\"#1c1c1e\",\"clusterBkg\":\"#202938\",\"clusterBorder\":\"#64748b\",\"titleColor\":\"#f8fafc\",\"noteBkgColor\":\"#3a321f\",\"noteTextColor\":\"#fef3c7\",\"noteBorderColor\":\"#fbbf24\"}}");
    let reply = render_svg(normalized.as_str(), theme.as_str(), "markerup-preview");
    mermaid_render_outcome(reply, "No Mermaid diagram found")
}

/// Renders a Mermaid block of the preview to SVG: the source after
/// `normalize_mermaid_source`, the preview's dark theme and `diagram_id`; an
/// error when the source holds no diagram or the renderer fails.
pub fn render_preview_mermaid(source: &str, diagram_id: &str) -> (r: Result<String, String>)
    ensures
        outcome_view(r) == render_outcome(
            mermaid_rendering(normalized_mermaid(source@, true), dark_theme_json(), diagram_id@),
            "no Mermaid diagram found"@,
        ),
{
    let normalized = normalize_mermaid_source(source);
    let theme = mermaid_theme_json(true);
    let reply = render_svg(normalized.as_str(), theme.as_str(), diagram_id);
    mermaid_render_outcome(reply, "no Mermaid diagram found")
}

/// The diagram id of Mermaid block `index` of preview `generation`.
pub fn preview_mermaid_id(generation: u64, index: usize) -> (r: String)
    ensures
        r@ == preview_diagram_id(generation, index as nat),
{
    let mut r = crate::text::owned("markerup-");
    crate::preview::push_decimal(&mut r, generation);
    crate::text::push_char(&mut r, '-');
    crate::preview::push_decimal(&mut r, index as u64);
    proof {
        reveal_strlit("markerup-");
        reveal_strlit("-");
        assert(r@ =~= preview_diagram_id(generation, index as nat));
    }
    r
}

/// What a render request answers for the renderer's reply: the SVG when it
/// drew a diagram, the error `missing` when the source held none, and the
/// renderer's own message when it failed.
pub fn mermaid_render_outcome(rendered: Result<Option<String>, String>, missing: &str) -> (r: Result<String, String>)
    ensures
        match rendered {
            Ok(Some(svg)) => r == Ok::<String, String>(svg),
            Ok(None) => r is Err && r->Err_0@ == missing@,
            Err(message) => r == Err::<String, String>(message),
        },
        outcome_view(r) == render_outcome(reply_view(rendered), missing@),
{
    match rendered {
        Ok(Some(svg)) => Ok(svg),
        Ok(None) => Err(crate::text::owned(missing)),
        Err(message) => Err(message),
    }
}

} // verus!
