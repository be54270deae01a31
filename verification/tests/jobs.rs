#[test]
fn test_symbol_sync_job_creation() {
    // The symbol sync job needs a database behind it; nothing to check here.
    let _ = order_book_api::market::timeframe::Timeframe::all();
}
