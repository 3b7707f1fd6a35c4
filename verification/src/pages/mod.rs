pub mod post;
pub mod search;
pub mod tag;
pub mod user;

use vstd::prelude::*;

verus! {

/// The page with the upload form.
pub const UPLOAD_PAGE_HTML: &'static str =
    "\n<!DOCTYPE html>\n<html>\n<head>\n\t<title>Upload</title>\n</head>\n<body>\n<form method=\"POST\" action=\"/post\" enctype=\"multipart/form-data\">\n\t<input type=\"file\" name=\"image\">\n\t<input type=\"textarea\" name=\"data\">\n\t<button type=\"submit\">Submit</button>\n</form>\n</body>\n</html>\n";

/// The content type of every JSON reply.
pub const JSON_TYPE: &'static str = "application/json; charset=utf-8";

/// The content type of the upload page.
pub const HTML_TYPE: &'static str = "text/html; charset=utf-8";

/// The upload form, with its content type.
pub fn upload_post_html() -> (page: (&'static str, &'static str))
    ensures
        page.0@ == HTML_TYPE@,
        page.1@ == UPLOAD_PAGE_HTML@,
{
    (HTML_TYPE, UPLOAD_PAGE_HTML)
}

} // verus!
