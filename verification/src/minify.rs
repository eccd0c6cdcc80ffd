//! Making what is written smaller, where that is wanted and possible.

use vstd::prelude::*;
use vstd::utf8::valid_utf8;
use crate::fsutil::is_text;

verus! {

/// The kinds of content that can be made smaller.
#[derive(Debug, Clone, Copy, PartialEq, Eq, Structural)]
pub enum Type {
    /// A page.
    Html,
    /// A script for the browser.
    Js,
}

/// What goes into a file, and the failure to report once it is written.
#[derive(Debug)]
pub struct Written {
    /// The bytes to write.
    pub bytes: Vec<u8>,
    /// Why the bytes are not smaller than they came, if making them
    /// smaller failed.
    pub error: Option<String>,
}

/// What a `Written` holds.
pub struct WrittenView {
    pub bytes: Seq<u8>,
    pub error: Option<Seq<char>>,
}

impl View for Written {
    type V = WrittenView;

    open spec fn view(&self) -> WrittenView {
        WrittenView {
            bytes: self.bytes@,
            error: match self.error {
                Some(why) => Some(why@),
                None => None,
            },
        }
    }
}

/// What minify-html-onepass makes of the page `data`, with the styles in
/// it made smaller and the scripts in it left as they are: the smaller page,
/// or the failure as the crate prints it. It speaks of pages that are valid
/// UTF-8 only: the crate reads others as text without testing them.
pub uninterp spec fn html_minified(data: Seq<u8>) -> Result<Seq<u8>, Seq<char>>;

/// What making `data` smaller as `file_type` gives. Outside production
/// nothing is made smaller; scripts never are, nor is a page that is not
/// valid UTF-8.
pub open spec fn minified(file_type: Type, data: Seq<u8>, prod: bool) -> Result<
    Seq<u8>,
    Seq<char>,
> {
    if prod && file_type == Type::Html && valid_utf8(data) {
        html_minified(data)
    } else {
        Ok(data)
    }
}

/// What is written when making `given` smaller came to `outcome`: the
/// smaller bytes, or, where that failed, the given ones, with the failure
/// to report.
pub open spec fn settled(given: Seq<u8>, outcome: Result<Seq<u8>, Seq<char>>) -> WrittenView {
    match outcome {
        Ok(small) => WrittenView { bytes: small, error: None },
        Err(why) => WrittenView { bytes: given, error: Some(why) },
    }
}

/// minify-html-onepass's `in_place` on a copy of `data`, with `minify_css`
/// on and `minify_js` off; the copy is cut to the length that the call
/// returns. A failure comes as the crate's error writes itself: what is
/// wrong, and where. The claim is that the outcome depends on `data` alone.
/// Bytes that are not valid UTF-8 are kept from the call, which reads
/// styles as text without testing them.
#[verifier::external_body]
fn html(data: &Vec<u8>) -> (r: Result<Vec<u8>, String>)
    requires
        valid_utf8(data@),
    ensures
        match r {
            Ok(small) => html_minified(data@) == Ok::<Seq<u8>, Seq<char>>(small@),
            Err(why) => html_minified(data@) == Err::<Seq<u8>, Seq<char>>(why@),
        },
{
    let mut code = data.clone();
    let conf = minify_html_onepass::Cfg { minify_css: true, minify_js: false };
    match minify_html_onepass::in_place(&mut code, &conf) {
        Ok(len) => {
            code.truncate(len);
            Ok(code)
        },
        Err(err) => Err(err.to_string()),
    }
}

/// Scripts for the browser are written as they come.
fn js(data: &Vec<u8>) -> (r: Result<Vec<u8>, String>)
    ensures
        r matches Ok(same) && same@ == data@,
{
    Ok(data.clone())
}

/// Decides what is written when making `given` smaller came to
/// `outcome`.
pub fn settle(given: Vec<u8>, outcome: Result<Vec<u8>, String>) -> (r: Written)
    ensures
        r@ == settled(
            given@,
            match outcome {
                Ok(small) => Ok(small@),
                Err(why) => Err(why@),
            },
        ),
{
    match outcome {
        Ok(small) => Written { bytes: small, error: None },
        Err(why) => Written { bytes: given, error: Some(why) },
    }
}

/// Decides what is written for `data` of the kind `file_type`: in
/// production a page that is valid UTF-8 is made smaller, and should that
/// fail, the page goes out as it came and the failure is reported. Anything
/// else goes out as it came.
pub fn write(file_type: Type, data: Vec<u8>, prod: bool) -> (r: Written)
    ensures
        r@ == settled(data@, minified(file_type, data@, prod)),
{
    let outcome = if prod {
        match file_type {
            Type::Html => if is_text(data.as_slice()) {
                html(&data)
            } else {
                Ok(data.clone())
            },
            Type::Js => js(&data),
        }
    } else {
        Ok(data.clone())
    };
    settle(data, outcome)
}

} // verus!
