use vstd::prelude::*;

verus! {

/// The `connection` header name.
pub open spec fn connection() -> Seq<u8> {
    seq![99u8, 111u8, 110u8, 110u8, 101u8, 99u8, 116u8, 105u8, 111u8, 110u8]
}

/// The `connection` header name.
pub fn connection_bytes() -> (r: Vec<u8>)
    ensures
        r@ == connection(),
{
    let r: Vec<u8> = vec![99u8, 111u8, 110u8, 110u8, 101u8, 99u8, 116u8, 105u8, 111u8, 110u8];
    assert(r@ =~= connection());
    r
}

/// The `close` connection option.
pub open spec fn close() -> Seq<u8> {
    seq![99u8, 108u8, 111u8, 115u8, 101u8]
}

/// The `close` connection option.
pub fn close_bytes() -> (r: Vec<u8>)
    ensures
        r@ == close(),
{
    let r: Vec<u8> = vec![99u8, 108u8, 111u8, 115u8, 101u8];
    assert(r@ =~= close());
    r
}

/// The `upgrade` header name, and the connection option of that name.
pub open spec fn upgrade() -> Seq<u8> {
    seq![117u8, 112u8, 103u8, 114u8, 97u8, 100u8, 101u8]
}

/// The `upgrade` header name, and the connection option of that name.
pub fn upgrade_bytes() -> (r: Vec<u8>)
    ensures
        r@ == upgrade(),
{
    let r: Vec<u8> = vec![117u8, 112u8, 103u8, 114u8, 97u8, 100u8, 101u8];
    assert(r@ =~= upgrade());
    r
}

/// The `expect` header name.
pub open spec fn expect() -> Seq<u8> {
    seq![101u8, 120u8, 112u8, 101u8, 99u8, 116u8]
}

/// The `expect` header name.
pub fn expect_bytes() -> (r: Vec<u8>)
    ensures
        r@ == expect(),
{
    let r: Vec<u8> = vec![101u8, 120u8, 112u8, 101u8, 99u8, 116u8];
    assert(r@ =~= expect());
    r
}

/// The `100-continue` expectation.
pub open spec fn continue_100() -> Seq<u8> {
    seq![49u8, 48u8, 48u8, 45u8, 99u8, 111u8, 110u8, 116u8, 105u8, 110u8, 117u8, 101u8]
}

/// The `100-continue` expectation.
pub fn continue_100_bytes() -> (r: Vec<u8>)
    ensures
        r@ == continue_100(),
{
    let r: Vec<u8> = vec![49u8, 48u8, 48u8, 45u8, 99u8, 111u8, 110u8, 116u8, 105u8, 110u8, 117u8, 101u8];
    assert(r@ =~= continue_100());
    r
}

/// The `transfer-encoding` header name.
pub open spec fn transfer_encoding() -> Seq<u8> {
    seq![116u8, 114u8, 97u8, 110u8, 115u8, 102u8, 101u8, 114u8, 45u8, 101u8, 110u8, 99u8, 111u8, 100u8, 105u8, 110u8, 103u8]
}

/// The `transfer-encoding` header name.
pub fn transfer_encoding_bytes() -> (r: Vec<u8>)
    ensures
        r@ == transfer_encoding(),
{
    let r: Vec<u8> = vec![116u8, 114u8, 97u8, 110u8, 115u8, 102u8, 101u8, 114u8, 45u8, 101u8, 110u8, 99u8, 111u8, 100u8, 105u8, 110u8, 103u8];
    assert(r@ =~= transfer_encoding());
    r
}

/// The `chunked` transfer coding.
pub open spec fn chunked() -> Seq<u8> {
    seq![99u8, 104u8, 117u8, 110u8, 107u8, 101u8, 100u8]
}

/// The `chunked` transfer coding.
pub fn chunked_bytes() -> (r: Vec<u8>)
    ensures
        r@ == chunked(),
{
    let r: Vec<u8> = vec![99u8, 104u8, 117u8, 110u8, 107u8, 101u8, 100u8];
    assert(r@ =~= chunked());
    r
}

/// The `content-length` header name.
pub open spec fn content_length() -> Seq<u8> {
    seq![99u8, 111u8, 110u8, 116u8, 101u8, 110u8, 116u8, 45u8, 108u8, 101u8, 110u8, 103u8, 116u8, 104u8]
}

/// The `content-length` header name.
pub fn content_length_bytes() -> (r: Vec<u8>)
    ensures
        r@ == content_length(),
{
    let r: Vec<u8> = vec![99u8, 111u8, 110u8, 116u8, 101u8, 110u8, 116u8, 45u8, 108u8, 101u8, 110u8, 103u8, 116u8, 104u8];
    assert(r@ =~= content_length());
    r
}

/// The `content-type` header name.
pub open spec fn content_type() -> Seq<u8> {
    seq![99u8, 111u8, 110u8, 116u8, 101u8, 110u8, 116u8, 45u8, 116u8, 121u8, 112u8, 101u8]
}

/// The `content-type` header name.
pub fn content_type_bytes() -> (r: Vec<u8>)
    ensures
        r@ == content_type(),
{
    let r: Vec<u8> = vec![99u8, 111u8, 110u8, 116u8, 101u8, 110u8, 116u8, 45u8, 116u8, 121u8, 112u8, 101u8];
    assert(r@ =~= content_type());
    r
}

/// The `date` header name.
pub open spec fn date() -> Seq<u8> {
    seq![100u8, 97u8, 116u8, 101u8]
}

/// The `date` header name.
pub fn date_bytes() -> (r: Vec<u8>)
    ensures
        r@ == date(),
{
    let r: Vec<u8> = vec![100u8, 97u8, 116u8, 101u8];
    assert(r@ =~= date());
    r
}

/// The `host` header name.
pub open spec fn host() -> Seq<u8> {
    seq![104u8, 111u8, 115u8, 116u8]
}

/// The `host` header name.
pub fn host_bytes() -> (r: Vec<u8>)
    ensures
        r@ == host(),
{
    let r: Vec<u8> = vec![104u8, 111u8, 115u8, 116u8];
    assert(r@ =~= host());
    r
}

/// The canonical name of the HEAD method.
pub open spec fn head_method() -> Seq<u8> {
    seq![72u8, 69u8, 65u8, 68u8]
}

/// The canonical name of the HEAD method.
pub fn head_method_bytes() -> (r: Vec<u8>)
    ensures
        r@ == head_method(),
{
    let r: Vec<u8> = vec![72u8, 69u8, 65u8, 68u8];
    assert(r@ =~= head_method());
    r
}

/// The canonical name of the CONNECT method.
pub open spec fn connect_method() -> Seq<u8> {
    seq![67u8, 79u8, 78u8, 78u8, 69u8, 67u8, 84u8]
}

/// The canonical name of the CONNECT method.
pub fn connect_method_bytes() -> (r: Vec<u8>)
    ensures
        r@ == connect_method(),
{
    let r: Vec<u8> = vec![67u8, 79u8, 78u8, 78u8, 69u8, 67u8, 84u8];
    assert(r@ =~= connect_method());
    r
}

/// The start of a status line.
pub open spec fn http11() -> Seq<u8> {
    seq![72u8, 84u8, 84u8, 80u8, 47u8, 49u8, 46u8, 49u8, 32u8]
}

/// The start of a status line.
pub fn http11_bytes() -> (r: Vec<u8>)
    ensures
        r@ == http11(),
{
    let r: Vec<u8> = vec![72u8, 84u8, 84u8, 80u8, 47u8, 49u8, 46u8, 49u8, 32u8];
    assert(r@ =~= http11());
    r
}

/// The interim response that invites the client to send its body.
pub open spec fn continue_line() -> Seq<u8> {
    seq![72u8, 84u8, 84u8, 80u8, 47u8, 49u8, 46u8, 49u8, 32u8, 49u8, 48u8, 48u8, 32u8, 67u8, 111u8, 110u8, 116u8, 105u8, 110u8, 117u8, 101u8, 13u8, 10u8, 13u8, 10u8]
}

/// The interim response that invites the client to send its body.
pub fn continue_line_bytes() -> (r: Vec<u8>)
    ensures
        r@ == continue_line(),
{
    let r: Vec<u8> = vec![72u8, 84u8, 84u8, 80u8, 47u8, 49u8, 46u8, 49u8, 32u8, 49u8, 48u8, 48u8, 32u8, 67u8, 111u8, 110u8, 116u8, 105u8, 110u8, 117u8, 101u8, 13u8, 10u8, 13u8, 10u8];
    assert(r@ =~= continue_line());
    r
}

} // verus!
