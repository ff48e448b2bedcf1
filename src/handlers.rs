//! What the two routes decide: which post a slug names, and the status and
//! body of each reply.
use vstd::prelude::*;
use crate::post::Post;
use crate::text::{chars_of, string_of};

verus! {

/// The first post whose slug is `slug`: posts with the same title share a
/// slug, and the one listed first wins.
pub fn find_by_slug(posts: &Vec<Post>, slug: &str) -> (r: Option<usize>)
    ensures
        r matches Some(i) ==> i < posts@.len() && posts@[i as int].slug@ == slug@ && forall|k: int|
            0 <= k < i ==> posts@[k].slug@ != slug@,
        r is None ==> forall|k: int| 0 <= k < posts@.len() ==> posts@[k].slug@ != slug@,
{
    let wanted = string_of(&chars_of(slug));
    let mut i: usize = 0;
    while i < posts.len()
        invariant
            i <= posts@.len(),
            wanted@ == slug@,
            forall|k: int| 0 <= k < i ==> posts@[k].slug@ != slug@,
        decreases posts@.len() - i,
    {
        if posts[i].slug == wanted {
            return Some(i);
        }
        i = i + 1;
    }
    None
}

/// The outcome of a request.
pub enum Reply {
    /// A rendered page.
    Page(String),
    /// No post has the requested slug.
    NotFound,
    /// The template could not be rendered.
    ServerError,
}

impl Reply {
    /// The reply to a rendering attempt: the page, or a server error where
    /// the template failed.
    pub fn from_render(rendered: Option<String>) -> (r: Reply)
        ensures
            match rendered {
                Some(h) => r matches Reply::Page(p) && p@ == h@,
                None => r is ServerError,
            },
    {
        match rendered {
            Some(h) => Reply::Page(h),
            None => Reply::ServerError,
        }
    }

    /// The HTTP status code.
    pub fn status(&self) -> (r: u16)
        ensures
            r == match self {
                Reply::Page(_) => 200u16,
                Reply::NotFound => 404u16,
                Reply::ServerError => 500u16,
            },
    {
        match self {
            Reply::Page(_) => 200,
            Reply::NotFound => 404,
            Reply::ServerError => 500,
        }
    }

    /// The response body: the page, or a fixed plain-text message.
    pub fn body(&self) -> (r: String)
        ensures
            match self {
                Reply::Page(h) => r@ == h@,
                Reply::NotFound => r@ == "Post not found"@,
                Reply::ServerError => r@ == "Template rendering error"@,
            },
    {
        match self {
            Reply::Page(h) => h.clone(),
            Reply::NotFound => String::from_str("Post not found"),
            Reply::ServerError => String::from_str("Template rendering error"),
        }
    }
}

} // verus!
