use vstd::prelude::*;

verus! {

/// "Hi there!": the fixed greeting body.
pub open spec fn txt_hi_there() -> Seq<u8> {
    seq![72u8, 105, 32, 116, 104, 101, 114, 101, 33]
}

/// Builds "Hi there!".
pub fn lit_hi_there() -> (r: Vec<u8>)
    ensures
        r@ == txt_hi_there(),
{
    let r: Vec<u8> = vec![72, 105, 32, 116, 104, 101, 114, 101, 33];
    proof {
        assert(r@ =~= txt_hi_there());
    }
    r
}

/// "Waited 5 seconds!": the delayed route's body.
pub open spec fn txt_waited() -> Seq<u8> {
    seq![87u8, 97, 105, 116, 101, 100, 32, 53, 32, 115, 101, 99, 111, 110, 100, 115, 33]
}

/// Builds "Waited 5 seconds!".
pub fn lit_waited() -> (r: Vec<u8>)
    ensures
        r@ == txt_waited(),
{
    let r: Vec<u8> = vec![87, 97, 105, 116, 101, 100, 32, 53, 32, 115, 101, 99, 111, 110, 100, 115, 33];
    proof {
        assert(r@ =~= txt_waited());
    }
    r
}

/// "Hello ": the state greeting's head.
pub open spec fn txt_hello_pre() -> Seq<u8> {
    seq![72u8, 101, 108, 108, 111, 32]
}

/// Builds "Hello ".
pub fn lit_hello_pre() -> (r: Vec<u8>)
    ensures
        r@ == txt_hello_pre(),
{
    let r: Vec<u8> = vec![72, 101, 108, 108, 111, 32];
    proof {
        assert(r@ =~= txt_hello_pre());
    }
    r
}

/// "!": the closing mark.
pub open spec fn txt_bang() -> Seq<u8> {
    seq![33u8]
}

/// Builds "!".
pub fn lit_bang() -> (r: Vec<u8>)
    ensures
        r@ == txt_bang(),
{
    let r: Vec<u8> = vec![33];
    proof {
        assert(r@ =~= txt_bang());
    }
    r
}

/// "Visits so far: ": the counter body's head.
pub open spec fn txt_visits_pre() -> Seq<u8> {
    seq![86u8, 105, 115, 105, 116, 115, 32, 115, 111, 32, 102, 97, 114, 58, 32]
}

/// Builds "Visits so far: ".
pub fn lit_visits_pre() -> (r: Vec<u8>)
    ensures
        r@ == txt_visits_pre(),
{
    let r: Vec<u8> = vec![86, 105, 115, 105, 116, 115, 32, 115, 111, 32, 102, 97, 114, 58, 32];
    proof {
        assert(r@ =~= txt_visits_pre());
    }
    r
}

/// "Welcome ": the welcome bodies' head.
pub open spec fn txt_welcome_pre() -> Seq<u8> {
    seq![87u8, 101, 108, 99, 111, 109, 101, 32]
}

/// Builds "Welcome ".
pub fn lit_welcome_pre() -> (r: Vec<u8>)
    ensures
        r@ == txt_welcome_pre(),
{
    let r: Vec<u8> = vec![87, 101, 108, 99, 111, 109, 101, 32];
    proof {
        assert(r@ =~= txt_welcome_pre());
    }
    r
}

/// ", user_id ": the middle of the users body.
pub open spec fn txt_user_id_mid() -> Seq<u8> {
    seq![44u8, 32, 117, 115, 101, 114, 95, 105, 100, 32]
}

/// Builds ", user_id ".
pub fn lit_user_id_mid() -> (r: Vec<u8>)
    ensures
        r@ == txt_user_id_mid(),
{
    let r: Vec<u8> = vec![44, 32, 117, 115, 101, 114, 95, 105, 100, 32];
    proof {
        assert(r@ =~= txt_user_id_mid());
    }
    r
}

/// "Submitting for ": the submit body's head.
pub open spec fn txt_submit_pre() -> Seq<u8> {
    seq![83u8, 117, 98, 109, 105, 116, 116, 105, 110, 103, 32, 102, 111, 114, 32]
}

/// Builds "Submitting for ".
pub fn lit_submit_pre() -> (r: Vec<u8>)
    ensures
        r@ == txt_submit_pre(),
{
    let r: Vec<u8> = vec![83, 117, 98, 109, 105, 116, 116, 105, 110, 103, 32, 102, 111, 114, 32];
    proof {
        assert(r@ =~= txt_submit_pre());
    }
    r
}

/// " with password ": the middle of the submit body.
pub open spec fn txt_submit_mid() -> Seq<u8> {
    seq![32u8, 119, 105, 116, 104, 32, 112, 97, 115, 115, 119, 111, 114, 100, 32]
}

/// Builds " with password ".
pub fn lit_submit_mid() -> (r: Vec<u8>)
    ensures
        r@ == txt_submit_mid(),
{
    let r: Vec<u8> = vec![32, 119, 105, 116, 104, 32, 112, 97, 115, 115, 119, 111, 114, 100, 32];
    proof {
        assert(r@ =~= txt_submit_mid());
    }
    r
}

/// "streamed body": the single declared stream chunk.
pub open spec fn txt_streamed() -> Seq<u8> {
    seq![115u8, 116, 114, 101, 97, 109, 101, 100, 32, 98, 111, 100, 121]
}

/// Builds "streamed body".
pub fn lit_streamed() -> (r: Vec<u8>)
    ensures
        r@ == txt_streamed(),
{
    let r: Vec<u8> = vec![115, 116, 114, 101, 97, 109, 101, 100, 32, 98, 111, 100, 121];
    proof {
        assert(r@ =~= txt_streamed());
    }
    r
}

/// "user_id": the users route's first dynamic segment.
pub open spec fn txt_user_id() -> Seq<u8> {
    seq![117u8, 115, 101, 114, 95, 105, 100]
}

/// Builds "user_id".
pub fn lit_user_id() -> (r: Vec<u8>)
    ensures
        r@ == txt_user_id(),
{
    let r: Vec<u8> = vec![117, 115, 101, 114, 95, 105, 100];
    proof {
        assert(r@ =~= txt_user_id());
    }
    r
}

/// "friend": the users route's second dynamic segment.
pub open spec fn txt_friend() -> Seq<u8> {
    seq![102u8, 114, 105, 101, 110, 100]
}

/// Builds "friend".
pub fn lit_friend() -> (r: Vec<u8>)
    ensures
        r@ == txt_friend(),
{
    let r: Vec<u8> = vec![102, 114, 105, 101, 110, 100];
    proof {
        assert(r@ =~= txt_friend());
    }
    r
}

/// "username": the name field key.
pub open spec fn txt_username() -> Seq<u8> {
    seq![117u8, 115, 101, 114, 110, 97, 109, 101]
}

/// Builds "username".
pub fn lit_username() -> (r: Vec<u8>)
    ensures
        r@ == txt_username(),
{
    let r: Vec<u8> = vec![117, 115, 101, 114, 110, 97, 109, 101];
    proof {
        assert(r@ =~= txt_username());
    }
    r
}

/// "password": the password field key.
pub open spec fn txt_password() -> Seq<u8> {
    seq![112u8, 97, 115, 115, 119, 111, 114, 100]
}

/// Builds "password".
pub fn lit_password() -> (r: Vec<u8>)
    ensures
        r@ == txt_password(),
{
    let r: Vec<u8> = vec![112, 97, 115, 115, 119, 111, 114, 100];
    proof {
        assert(r@ =~= txt_password());
    }
    r
}

/// "app": the nested scope's path prefix.
pub open spec fn txt_app() -> Seq<u8> {
    seq![97u8, 112, 112]
}

/// Builds "app".
pub fn lit_app() -> (r: Vec<u8>)
    ensures
        r@ == txt_app(),
{
    let r: Vec<u8> = vec![97, 112, 112];
    proof {
        assert(r@ =~= txt_app());
    }
    r
}

/// "Actix Web": the application name held as shared state.
pub open spec fn txt_app_name() -> Seq<u8> {
    seq![65u8, 99, 116, 105, 120, 32, 87, 101, 98]
}

/// Builds "Actix Web".
pub fn lit_app_name() -> (r: Vec<u8>)
    ensures
        r@ == txt_app_name(),
{
    let r: Vec<u8> = vec![65, 99, 116, 105, 120, 32, 87, 101, 98];
    proof {
        assert(r@ =~= txt_app_name());
    }
    r
}

/// "echo": a path segment of the fixed route table.
pub open spec fn txt_echo() -> Seq<u8> {
    seq![101u8, 99, 104, 111]
}

/// Builds "echo".
pub fn lit_echo() -> (r: Vec<u8>)
    ensures
        r@ == txt_echo(),
{
    let r: Vec<u8> = vec![101, 99, 104, 111];
    proof {
        assert(r@ =~= txt_echo());
    }
    r
}

/// "wait": a path segment of the fixed route table.
pub open spec fn txt_wait() -> Seq<u8> {
    seq![119u8, 97, 105, 116]
}

/// Builds "wait".
pub fn lit_wait() -> (r: Vec<u8>)
    ensures
        r@ == txt_wait(),
{
    let r: Vec<u8> = vec![119, 97, 105, 116];
    proof {
        assert(r@ =~= txt_wait());
    }
    r
}

/// "hey": a path segment of the fixed route table.
pub open spec fn txt_hey() -> Seq<u8> {
    seq![104u8, 101, 121]
}

/// Builds "hey".
pub fn lit_hey() -> (r: Vec<u8>)
    ensures
        r@ == txt_hey(),
{
    let r: Vec<u8> = vec![104, 101, 121];
    proof {
        assert(r@ =~= txt_hey());
    }
    r
}

/// "index.html": a path segment of the fixed route table.
pub open spec fn txt_index_html() -> Seq<u8> {
    seq![105u8, 110, 100, 101, 120, 46, 104, 116, 109, 108]
}

/// Builds "index.html".
pub fn lit_index_html() -> (r: Vec<u8>)
    ensures
        r@ == txt_index_html(),
{
    let r: Vec<u8> = vec![105, 110, 100, 101, 120, 46, 104, 116, 109, 108];
    proof {
        assert(r@ =~= txt_index_html());
    }
    r
}

/// "visits.html": a path segment of the fixed route table.
pub open spec fn txt_visits_html() -> Seq<u8> {
    seq![118u8, 105, 115, 105, 116, 115, 46, 104, 116, 109, 108]
}

/// Builds "visits.html".
pub fn lit_visits_html() -> (r: Vec<u8>)
    ensures
        r@ == txt_visits_html(),
{
    let r: Vec<u8> = vec![118, 105, 115, 105, 116, 115, 46, 104, 116, 109, 108];
    proof {
        assert(r@ =~= txt_visits_html());
    }
    r
}

/// "users": a path segment of the fixed route table.
pub open spec fn txt_users() -> Seq<u8> {
    seq![117u8, 115, 101, 114, 115]
}

/// Builds "users".
pub fn lit_users() -> (r: Vec<u8>)
    ensures
        r@ == txt_users(),
{
    let r: Vec<u8> = vec![117, 115, 101, 114, 115];
    proof {
        assert(r@ =~= txt_users());
    }
    r
}

/// "query": a path segment of the fixed route table.
pub open spec fn txt_query() -> Seq<u8> {
    seq![113u8, 117, 101, 114, 121]
}

/// Builds "query".
pub fn lit_query() -> (r: Vec<u8>)
    ensures
        r@ == txt_query(),
{
    let r: Vec<u8> = vec![113, 117, 101, 114, 121];
    proof {
        assert(r@ =~= txt_query());
    }
    r
}

/// "submit": a path segment of the fixed route table.
pub open spec fn txt_submit() -> Seq<u8> {
    seq![115u8, 117, 98, 109, 105, 116]
}

/// Builds "submit".
pub fn lit_submit() -> (r: Vec<u8>)
    ensures
        r@ == txt_submit(),
{
    let r: Vec<u8> = vec![115, 117, 98, 109, 105, 116];
    proof {
        assert(r@ =~= txt_submit());
    }
    r
}

/// "profile": a path segment of the fixed route table.
pub open spec fn txt_profile() -> Seq<u8> {
    seq![112u8, 114, 111, 102, 105, 108, 101]
}

/// Builds "profile".
pub fn lit_profile() -> (r: Vec<u8>)
    ensures
        r@ == txt_profile(),
{
    let r: Vec<u8> = vec![112, 114, 111, 102, 105, 108, 101];
    proof {
        assert(r@ =~= txt_profile());
    }
    r
}

/// "stream": a path segment of the fixed route table.
pub open spec fn txt_stream() -> Seq<u8> {
    seq![115u8, 116, 114, 101, 97, 109]
}

/// Builds "stream".
pub fn lit_stream() -> (r: Vec<u8>)
    ensures
        r@ == txt_stream(),
{
    let r: Vec<u8> = vec![115, 116, 114, 101, 97, 109];
    proof {
        assert(r@ =~= txt_stream());
    }
    r
}

} // verus!
