use crate::text::{
    contains, lemma_substituted_plain_prefix, lemma_substituted_token, occurs, occurs_at,
    substitute, substituted,
};
use vstd::prelude::*;
use vstd::string::*;

verus! {

/// The placeholder of the template that stands for the name of the unit.
pub const NAME_TOKEN: &'static str = "{{name}}";

/// The placeholder of the template that stands for the style sheet.
pub const CSS_TOKEN: &'static str = "{{css}}";

/// The tag that ends a style element. A style sheet that holds it would end
/// the element it is put in, and what follows it would be read as markup.
pub const STYLE_END: &'static str = "</style>";

/// The template up to the title.
pub const PAGE_HEAD: &'static str =
    "<!DOCTYPE html>\n<html>\n<head>\n<meta charset=\"utf-8\">\n<title>";

/// The template between the title and the style sheet.
pub const PAGE_STYLE: &'static str = "</title>\n<style type=\"text/css\">\n";

/// The template between the style sheet and the module's name.
pub const PAGE_SCRIPT: &'static str =
    "\n</style>\n</head>\n<body>\n<script type=\"module\">\nimport init from \"./";

/// The template after the module's name.
pub const PAGE_TAIL: &'static str = ".js\";\ninit();\n</script>\n</body>\n</html>\n";

/// The host page before anything is put in: a title, a style element and a
/// script that loads the module of the unit.
pub open spec fn template() -> Seq<char> {
    PAGE_HEAD@ + NAME_TOKEN@ + PAGE_STYLE@ + CSS_TOKEN@ + PAGE_SCRIPT@ + NAME_TOKEN@ + PAGE_TAIL@
}

/// The host page of a unit: the name is put into the template first, the
/// style sheet then.
pub open spec fn rendered(name: Seq<char>, css: Seq<char>) -> Seq<char> {
    substituted(substituted(template(), NAME_TOKEN@, name), CSS_TOKEN@, css)
}

/// A style sheet that cannot be put into the page.
#[derive(Clone, Copy, Debug, PartialEq, Eq, Structural)]
pub enum GuardError {
    /// The style sheet holds the tag that ends a style element.
    StyleEnd,
}

/// The one line that says why a style sheet is turned down.
pub open spec fn guard_message() -> Seq<char> {
    "`</style>` detected in the css. This is disallowed to prevent injecting elements into the DOM."@
}

impl GuardError {
    /// The one line that says why the style sheet is turned down.
    pub fn message(&self) -> (text: String)
        ensures
            text@ == guard_message(),
    {
        String::from_str(
            "`</style>` detected in the css. This is disallowed to prevent injecting elements into the DOM.",
        )
    }
}

/// Turns down a style sheet that holds the tag that ends a style element, and
/// no other.
pub fn check_css(css: &str) -> (res: Result<(), GuardError>)
    ensures
        res is Err <==> occurs(css@, STYLE_END@),
{
    if contains(css, STYLE_END) {
        Err(GuardError::StyleEnd)
    } else {
        Ok(())
    }
}

/// The template as text.
pub fn page_template() -> (text: String)
    ensures
        text@ == template(),
{
    let mut text = String::from_str(PAGE_HEAD);
    text.append(NAME_TOKEN);
    text.append(PAGE_STYLE);
    text.append(CSS_TOKEN);
    text.append(PAGE_SCRIPT);
    text.append(NAME_TOKEN);
    text.append(PAGE_TAIL);
    text
}

/// Renders the host page of the unit `name` with the style sheet `css`.
pub fn render_page(name: &str, css: &str) -> (page: String)
    ensures
        page@ == rendered(name@, css@),
{
    let template = page_template();
    let named = substitute(template.as_str(), NAME_TOKEN, name);
    substitute(named.as_str(), CSS_TOKEN, css)
}

/// No character of `text` is an opening brace.
pub open spec fn brace_free(text: Seq<char>) -> bool {
    forall|i: int| 0 <= i < text.len() ==> text[i] != '{'
}

/// No piece of the template between its placeholders holds an opening brace.
proof fn lemma_pieces()
    ensures
        brace_free(PAGE_HEAD@),
        brace_free(PAGE_STYLE@),
        brace_free(PAGE_SCRIPT@),
        brace_free(PAGE_TAIL@),
{
    reveal_strlit("<!DOCTYPE html>\n<html>\n<head>\n<meta charset=\"utf-8\">\n<title>");
    reveal_strlit("</title>\n<style type=\"text/css\">\n");
    reveal_strlit("\n</style>\n</head>\n<body>\n<script type=\"module\">\nimport init from \"./");
    reveal_strlit(".js\";\ninit();\n</script>\n</body>\n</html>\n");
}

/// The name token is not found where the style token stands: the style
/// token is kept as it is.
proof fn lemma_css_token_kept(rest: Seq<char>, value: Seq<char>)
    ensures
        substituted(CSS_TOKEN@ + rest, NAME_TOKEN@, value) == CSS_TOKEN@ + substituted(
            rest,
            NAME_TOKEN@,
            value,
        ),
{
    reveal_strlit("{{name}}");
    reveal_strlit("{{css}}");
    let token = NAME_TOKEN@;
    let text = CSS_TOKEN@ + rest;
    if occurs_at(text, token, 0) {
        assert(text.subrange(0, token.len() as int)[2] == text[2]);
    }
    let second = text.skip(1);
    if occurs_at(second, token, 0) {
        assert(second.subrange(0, token.len() as int)[1] == second[1]);
    }
    let inner = CSS_TOKEN@.skip(2);
    assert(second.skip(1) =~= inner + rest);
    lemma_substituted_plain_prefix(inner, rest, token, value);
    assert(substituted(text, token, value) == seq![text[0]] + substituted(second, token, value));
    assert(substituted(second, token, value) == seq![second[0]] + substituted(
        second.skip(1),
        token,
        value,
    ));
    assert(seq![text[0]] + (seq![second[0]] + (inner + substituted(rest, token, value)))
        =~= CSS_TOKEN@ + substituted(rest, token, value));
}

/// Where the name holds no opening brace, the page is the template with the
/// name and the style sheet put in at once: putting the name in first makes no
/// place for the style sheet that the template did not have, and the style
/// sheet is not read for the name.
pub proof fn lemma_rendered_at_once(name: Seq<char>, css: Seq<char>)
    requires
        brace_free(name),
    ensures
        rendered(name, css) == PAGE_HEAD@ + name + PAGE_STYLE@ + css + PAGE_SCRIPT@ + name
            + PAGE_TAIL@,
{
    lemma_pieces();
    reveal_strlit("{{name}}");
    reveal_strlit("{{css}}");
    let none = Seq::<char>::empty();
    let name_token = NAME_TOKEN@;
    let css_token = CSS_TOKEN@;
    // The template, read from its end.
    let t6 = PAGE_TAIL@;
    let t5 = name_token + t6;
    let t4 = PAGE_SCRIPT@ + t5;
    let t3 = css_token + t4;
    let t2 = PAGE_STYLE@ + t3;
    let t1 = name_token + t2;
    let t0 = PAGE_HEAD@ + t1;
    assert(t0 =~= template());
    // The template with the name put in.
    let u6 = PAGE_TAIL@;
    let u5 = name + u6;
    let u4 = PAGE_SCRIPT@ + u5;
    let u3 = css_token + u4;
    let u2 = PAGE_STYLE@ + u3;
    let u1 = name + u2;
    let u0 = PAGE_HEAD@ + u1;
    assert(t6 + none =~= t6);
    lemma_substituted_plain_prefix(t6, none, name_token, name);
    lemma_substituted_token(t6, name_token, name);
    lemma_substituted_plain_prefix(PAGE_SCRIPT@, t5, name_token, name);
    lemma_css_token_kept(t4, name);
    lemma_substituted_plain_prefix(PAGE_STYLE@, t3, name_token, name);
    lemma_substituted_token(t2, name_token, name);
    lemma_substituted_plain_prefix(PAGE_HEAD@, t1, name_token, name);
    assert(substituted(t0, name_token, name) == u0);
    // The style sheet put into that.
    let v6 = PAGE_TAIL@;
    let v5 = name + v6;
    let v4 = PAGE_SCRIPT@ + v5;
    let v3 = css + v4;
    let v2 = PAGE_STYLE@ + v3;
    let v1 = name + v2;
    let v0 = PAGE_HEAD@ + v1;
    lemma_substituted_plain_prefix(u6, none, css_token, css);
    lemma_substituted_plain_prefix(name, u6, css_token, css);
    lemma_substituted_plain_prefix(PAGE_SCRIPT@, u5, css_token, css);
    lemma_substituted_token(u4, css_token, css);
    lemma_substituted_plain_prefix(PAGE_STYLE@, u3, css_token, css);
    lemma_substituted_plain_prefix(name, u2, css_token, css);
    lemma_substituted_plain_prefix(PAGE_HEAD@, u1, css_token, css);
    assert(substituted(u0, css_token, css) == v0);
    assert(v0 =~= PAGE_HEAD@ + name + PAGE_STYLE@ + css + PAGE_SCRIPT@ + name + PAGE_TAIL@);
}

/// Where the name holds no opening brace and the style sheet holds neither
/// placeholder, the page holds the name and the style sheet, and neither
/// placeholder is left in it.
pub proof fn lemma_rendered_is_filled(name: Seq<char>, css: Seq<char>)
    requires
        brace_free(name),
        !occurs(css, NAME_TOKEN@),
        !occurs(css, CSS_TOKEN@),
    ensures
        occurs(rendered(name, css), name),
        occurs(rendered(name, css), css),
        !occurs(rendered(name, css), NAME_TOKEN@),
        !occurs(rendered(name, css), CSS_TOKEN@),
{
    lemma_rendered_at_once(name, css);
    lemma_pieces();
    let page = rendered(name, css);
    let before_css = PAGE_HEAD@ + name + PAGE_STYLE@;
    let after_css = PAGE_SCRIPT@ + name + PAGE_TAIL@;
    assert(page =~= before_css + css + after_css);
    assert(page.subrange(PAGE_HEAD@.len() as int, (PAGE_HEAD@.len() + name.len()) as int) =~= name);
    assert(occurs_at(page, name, PAGE_HEAD@.len() as int));
    assert(page.subrange(before_css.len() as int, (before_css.len() + css.len()) as int) =~= css);
    assert(occurs_at(page, css, before_css.len() as int));
    assert forall|token: Seq<char>, at: int|
        (token == NAME_TOKEN@ || token == CSS_TOKEN@) && occurs_at(
            page,
            token,
            at,
        ) implies false by {
        reveal_strlit("{{name}}");
        reveal_strlit("{{css}}");
        reveal_strlit(
            "\n</style>\n</head>\n<body>\n<script type=\"module\">\nimport init from \"./",
        );
        let found = page.subrange(at, at + token.len());
        let end = at + token.len() - 1;
        assert(found[0] == page[at]);
        assert(found[token.len() - 1] == page[end]);
        assert(before_css.len() <= at < before_css.len() + css.len());
        assert(end < before_css.len() + css.len());
        let inside = at - before_css.len();
        assert(css.subrange(inside, inside + token.len()) =~= found);
        assert(occurs_at(css, token, inside));
    }
}

} // verus!
